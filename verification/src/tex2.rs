//! The `dd_tex2` texture format: a small header and RGBA pixels, the full
//! image first and then each smaller mipmap level, one after the other.
//!
//! Where a level starts is not stored. It follows from the image's sides:
//! level `n` has the sides shifted right by `n`, and starts where the levels
//! before it end.

use crate::error::DDError;
use crate::wire::{le_bytes_u32, lemma_le_u32_of_bytes, read_u32_le, spec_le_u32, write_u32_le};
use vstd::arithmetic::div_mod::lemma_div_denominator;
use vstd::arithmetic::power2::{
    is_pow2, lemma2_to64, lemma_pow2_pos, lemma_pow2_strictly_increases, lemma_pow2_unfold, pow2,
};
use vstd::bits::lemma_u32_shr_is_div;
use vstd::prelude::*;

verus! {

/// One pixel: red, green, blue, alpha.
pub type Rgba = (u8, u8, u8, u8);

/// The pixel that stands in for one that the buffer does not hold.
pub open spec fn white() -> Rgba {
    (0xFFu8, 0xFFu8, 0xFFu8, 0xFFu8)
}

/// Number of bytes of the texture header: signature, height, width and the
/// count of mipmap levels.
pub const TEX2_HEADER_LEN: usize = 11;

/// A side of the image at a mipmap level: the side halved once for each
/// level, which is the side shifted right by the level.
pub open spec fn level_side(side: u32, level: nat) -> nat
    decreases level,
{
    if level == 0 {
        side as nat
    } else {
        level_side(side, (level - 1) as nat) / 2
    }
}

/// Number of pixels of one mipmap level.
pub open spec fn level_pixels(height: u32, width: u32, level: nat) -> nat {
    level_side(width, level) * level_side(height, level)
}

/// Where a mipmap level starts in the pixel buffer: the number of pixels of
/// all levels before it.
pub open spec fn spec_calc_offset(height: u32, width: u32, level: nat) -> nat
    decreases level,
{
    if level == 0 {
        0
    } else {
        spec_calc_offset(height, width, (level - 1) as nat) + level_pixels(
            height,
            width,
            (level - 1) as nat,
        )
    }
}

/// Number of pixels of an image with its whole mipmap chain: the levels from
/// zero up to and including the declared count.
pub open spec fn total_pixel_count(height: u32, width: u32, mipmap_levels: u8) -> nat {
    spec_calc_offset(height, width, mipmap_levels as nat + 1)
}

/// Both sides are exact powers of two, so that every level halves cleanly.
pub open spec fn supports_mipmaps(height: u32, width: u32) -> bool {
    is_pow2(height as int) && is_pow2(width as int)
}

/// Halving a side `level` times divides it by two to the power of `level`.
pub proof fn lemma_level_side_is_quotient(side: u32, level: nat)
    ensures
        level_side(side, level) == side as nat / pow2(level),
    decreases level,
{
    lemma2_to64();
    if level > 0 {
        let before = (level - 1) as nat;
        let x = side as int;
        let c = pow2(before) as int;
        lemma_level_side_is_quotient(side, before);
        lemma_pow2_pos(before);
        lemma_pow2_unfold(level);
        lemma_div_denominator(x, c, 2);
        assert(level_side(side, level) == (x / c) / 2);
        assert(c * 2 == pow2(level));
        assert((x / c) / 2 == x / (c * 2));
    } else {
        assert(side as int / 1 == side as int);
    }
}

/// A side never grows from one level to the next, and is gone from level 32.
pub proof fn lemma_level_side_bounds(side: u32, level: nat)
    ensures
        level_side(side, level) <= side,
        level >= 32 ==> level_side(side, level) == 0,
{
    lemma_level_side_is_quotient(side, level);
    lemma_pow2_pos(level);
    let p = pow2(level) as int;
    let s = side as int;
    assert(s / p <= s) by (nonlinear_arith)
        requires
            p >= 1,
            s >= 0,
    ;
    if level >= 32 {
        lemma2_to64();
        if level > 32 {
            lemma_pow2_strictly_increases(32, level);
        }
        assert(s / p == 0) by (nonlinear_arith)
            requires
                0 <= s < p,
        ;
    }
}

/// No level has more pixels than fit 64 bits, and from level 32 on a level
/// has none.
pub proof fn lemma_level_pixels_bounds(height: u32, width: u32, level: nat)
    ensures
        level_pixels(height, width, level) <= 0xFFFF_FFFE_0000_0001,
        level >= 32 ==> level_pixels(height, width, level) == 0,
{
    lemma_level_side_bounds(height, level);
    lemma_level_side_bounds(width, level);
    let a = level_side(width, level) as int;
    let b = level_side(height, level) as int;
    assert(a * b <= 0xFFFF_FFFE_0000_0001) by (nonlinear_arith)
        requires
            0 <= a <= 0xFFFF_FFFF,
            0 <= b <= 0xFFFF_FFFF,
    ;
    if level >= 32 {
        assert(a * b == 0) by (nonlinear_arith)
            requires
                a == 0,
                b == 0,
        ;
    }
}

/// Level zero starts at the start of the buffer.
pub proof fn lemma_offset_of_level_zero(height: u32, width: u32)
    ensures
        spec_calc_offset(height, width, 0) == 0,
{
}

/// Each level starts where the one before it ends.
pub proof fn lemma_offset_step(height: u32, width: u32, level: nat)
    ensures
        spec_calc_offset(height, width, level + 1) == spec_calc_offset(height, width, level)
            + level_side(width, level) * level_side(height, level),
{
}

/// From level 32 on nothing is added any more.
pub proof fn lemma_offset_settles(height: u32, width: u32, level: nat)
    requires
        level >= 32,
    ensures
        spec_calc_offset(height, width, level) == spec_calc_offset(height, width, 32),
    decreases level,
{
    if level > 32 {
        lemma_offset_settles(height, width, (level - 1) as nat);
        lemma_level_pixels_bounds(height, width, (level - 1) as nat);
    }
}

/// Tells whether `x` is an exact power of two.
pub fn is_power_of_two(x: u32) -> (r: bool)
    ensures
        r == is_pow2(x as int),
{
    if x == 0 {
        proof {
            reveal(is_pow2);
        }
        return false;
    }
    let mut y: u32 = x;
    while y % 2 == 0
        invariant
            y >= 1,
            is_pow2(x as int) == is_pow2(y as int),
        decreases y,
    {
        proof {
            reveal(is_pow2);
        }
        y = y / 2;
    }
    proof {
        reveal(is_pow2);
    }
    y == 1
}

/// A side of the image at a mipmap level.
pub fn side_at_level(side: u32, level: u32) -> (r: u32)
    ensures
        r == level_side(side, level as nat),
{
    if level >= 32 {
        proof {
            lemma_level_side_bounds(side, level as nat);
        }
        0
    } else {
        proof {
            lemma_u32_shr_is_div(side, level);
            lemma_level_side_is_quotient(side, level as nat);
        }
        side >> level
    }
}

/// Where a mipmap level starts, for any sides and any level: the sum is
/// taken in 128 bits, which hold it whatever the sides are.
pub fn level_start(height: u32, width: u32, level: u32) -> (r: u128)
    ensures
        r == spec_calc_offset(height, width, level as nat),
        r <= 32 * 0xFFFF_FFFE_0000_0001,
{
    let mut acc: u128 = 0;
    let mut n: u32 = 0;
    while n < level && n < 32
        invariant
            n <= level,
            n <= 32,
            acc == spec_calc_offset(height, width, n as nat),
            acc <= n * 0xFFFF_FFFE_0000_0001,
        decreases 32 - n,
    {
        let w = side_at_level(width, n) as u128;
        let h = side_at_level(height, n) as u128;
        proof {
            lemma_level_pixels_bounds(height, width, n as nat);
            lemma_offset_step(height, width, n as nat);
            assert(w * h == level_pixels(height, width, n as nat));
        }
        acc = acc + w * h;
        n = n + 1;
    }
    proof {
        if level >= 32 {
            lemma_offset_settles(height, width, level as nat);
        }
    }
    acc
}

/// Where a mipmap level starts in the pixel buffer. A level other than zero
/// can only be addressed when both sides are powers of two, and a start
/// that does not fit 32 bits cannot be given.
pub fn calc_offset(height: u32, width: u32, cur_mip: u32) -> (r: Result<u32, DDError>)
    ensures
        match r {
            Ok(v) => (cur_mip == 0 || supports_mipmaps(height, width)) && v == spec_calc_offset(
                height,
                width,
                cur_mip as nat,
            ),
            Err(DDError::UnsupportedMipmapLevel) => cur_mip != 0 && !supports_mipmaps(
                height,
                width,
            ),
            Err(DDError::LengthOverflow) => (cur_mip == 0 || supports_mipmaps(height, width))
                && spec_calc_offset(height, width, cur_mip as nat) > u32::MAX,
            Err(_) => false,
        },
{
    if cur_mip != 0 && !(is_power_of_two(height) && is_power_of_two(width)) {
        return Err(DDError::UnsupportedMipmapLevel);
    }
    let start = level_start(height, width, cur_mip);
    if start > 0xFFFF_FFFF {
        return Err(DDError::LengthOverflow);
    }
    Ok(start as u32)
}

/// One of the four bytes of a pixel.
pub open spec fn pixel_component(p: Rgba, k: int) -> u8 {
    if k == 0 {
        p.0
    } else if k == 1 {
        p.1
    } else if k == 2 {
        p.2
    } else {
        p.3
    }
}

/// The bytes of a run of pixels: four for each, red first.
pub open spec fn pixel_bytes(pixels: Seq<Rgba>) -> Seq<u8> {
    Seq::new(4 * pixels.len(), |i: int| pixel_component(pixels[i / 4], i % 4))
}

/// The first `count` pixels that `b` holds.
pub open spec fn spec_pixels(b: Seq<u8>, count: nat) -> Seq<Rgba> {
    Seq::new(count, |i: int| (b[4 * i], b[4 * i + 1], b[4 * i + 2], b[4 * i + 3]))
}

/// One more pixel adds its four bytes.
pub proof fn lemma_pixel_bytes_push(pixels: Seq<Rgba>, p: Rgba)
    ensures
        pixel_bytes(pixels.push(p)) == pixel_bytes(pixels) + seq![p.0, p.1, p.2, p.3],
{
    let a = pixel_bytes(pixels.push(p));
    let b = pixel_bytes(pixels) + seq![p.0, p.1, p.2, p.3];
    assert(a.len() == b.len());
    assert forall|i: int| 0 <= i < a.len() implies a[i] == b[i] by {
        if i < 4 * pixels.len() {
            assert(pixels.push(p)[i / 4] == pixels[i / 4]);
        } else {
            assert(i / 4 == pixels.len());
            assert(pixels.push(p)[i / 4] == p);
        }
    }
    assert(a =~= b);
}

/// Pixels are read back from their own bytes, whatever follows them.
pub proof fn lemma_pixels_roundtrip(pixels: Seq<Rgba>, tail: Seq<u8>)
    ensures
        spec_pixels(pixel_bytes(pixels) + tail, pixels.len()) == pixels,
{
    let b = pixel_bytes(pixels) + tail;
    let r = spec_pixels(b, pixels.len());
    assert forall|i: int| 0 <= i < pixels.len() implies r[i] == pixels[i] by {
        assert(b[4 * i] == pixel_bytes(pixels)[4 * i]);
        assert(b[4 * i + 1] == pixel_bytes(pixels)[4 * i + 1]);
        assert(b[4 * i + 2] == pixel_bytes(pixels)[4 * i + 2]);
        assert(b[4 * i + 3] == pixel_bytes(pixels)[4 * i + 3]);
    }
    assert(r =~= pixels);
}

/// What the texture header says: height, width and the count of mipmap
/// levels, after the two signature bytes `0x11 0x40`.
pub open spec fn spec_tex2_header(b: Seq<u8>) -> Result<(u32, u32, u8), DDError> {
    if b.len() < 2 {
        Err(DDError::IncompleteInput)
    } else if b[0] != 0x11 || b[1] != 0x40 {
        Err(DDError::BadTextureMagic)
    } else if b.len() < 11 {
        Err(DDError::IncompleteInput)
    } else {
        Ok((spec_le_u32(b.skip(2)), spec_le_u32(b.skip(6)), b[10]))
    }
}

/// Reads the texture header: height, width and the count of mipmap levels.
pub fn tex2_header(input: &[u8]) -> (r: Result<(u32, u32, u8), DDError>)
    ensures
        r == spec_tex2_header(input@),
{
    if input.len() < 2 {
        return Err(DDError::IncompleteInput);
    }
    if input[0] != 0x11 || input[1] != 0x40 {
        return Err(DDError::BadTextureMagic);
    }
    if input.len() < 11 {
        return Err(DDError::IncompleteInput);
    }
    let height = match read_u32_le(input, 2) {
        Some(v) => v,
        None => { return Err(DDError::IncompleteInput); },
    };
    let width = match read_u32_le(input, 6) {
        Some(v) => v,
        None => { return Err(DDError::IncompleteInput); },
    };
    Ok((height, width, input[10]))
}

/// Reads the pixel whose four bytes start at `pos`.
pub fn tex2_pixel(input: &[u8], pos: usize) -> (r: Option<Rgba>)
    ensures
        r == (if pos + 4 <= input@.len() {
            Some((input@[pos as int], input@[pos + 1], input@[pos + 2], input@[pos + 3]))
        } else {
            None
        }),
{
    if input.len() < 4 || pos > input.len() - 4 {
        None
    } else {
        Some((input[pos], input[pos + 1], input[pos + 2], input[pos + 3]))
    }
}

#[derive(Debug, PartialEq, Eq, Clone)]
pub struct DDTex2Image {
    /// Count of mipmap levels below the full image, as the header has it
    pub mipmap_levels: u8,
    /// The level that pixel coordinates are read at; `set_mipmap` selects it
    pub mipmap_current: u8,
    pub height: u32,
    pub width: u32,
    /// The pixels of all levels, the full image first
    pub pixels: Vec<Rgba>,
}

impl DDTex2Image {
    /// The mipmap level that pixel coordinates are read at.
    pub open spec fn current_level(&self) -> u8 {
        self.mipmap_current
    }

    /// The selected level is one that the image's sides allow.
    pub open spec fn wf(&self) -> bool {
        self.current_level() == 0 || supports_mipmaps(self.height, self.width)
    }

    /// Width of the selected level.
    pub open spec fn spec_cur_width(&self) -> nat {
        level_side(self.width, self.current_level() as nat)
    }

    /// Height of the selected level.
    pub open spec fn spec_cur_height(&self) -> nat {
        level_side(self.height, self.current_level() as nat)
    }

    /// Place in the pixel buffer of the pixel at `(x, y)` of the selected
    /// level: the level's start, then `y` rows of the level's width, then
    /// `x`.
    pub open spec fn spec_pos(&self, x: u32, y: u32) -> nat {
        (spec_calc_offset(self.height, self.width, self.current_level() as nat)
            + self.spec_cur_width() * y + x) as nat
    }

    /// The pixel at `(x, y)` of the selected level; white where the buffer
    /// ends before that place.
    pub open spec fn spec_pixel(&self, x: u32, y: u32) -> Rgba {
        if self.spec_pos(x, y) < self.pixels@.len() {
            self.pixels@[self.spec_pos(x, y) as int]
        } else {
            white()
        }
    }

    /// The bytes of the texture file for this image: signature, height,
    /// width, count of mipmap levels, then every pixel of every level.
    pub open spec fn spec_bytes(&self) -> Seq<u8> {
        seq![0x11u8, 0x40u8] + le_bytes_u32(self.height) + le_bytes_u32(self.width)
            + seq![self.mipmap_levels] + pixel_bytes(self.pixels@)
    }

    /// A transparent black image without mipmap levels.
    pub fn new(width: u32, height: u32) -> (r: Self)
        requires
            height * width <= u32::MAX,
        ensures
            r.width == width,
            r.height == height,
            r.mipmap_levels == 0,
            r.current_level() == 0,
            r.wf(),
            r.pixels@ == Seq::new((height * width) as nat, |i: int| (0u8, 0u8, 0u8, 0u8)),
    {
        let count: u32 = height * width;
        let mut pixels: Vec<Rgba> = Vec::new();
        let mut i: u32 = 0;
        while i < count
            invariant
                i <= count,
                pixels@ == Seq::new(i as nat, |j: int| (0u8, 0u8, 0u8, 0u8)),
            decreases count - i,
        {
            pixels.push((0, 0, 0, 0));
            i = i + 1;
            assert(pixels@ =~= Seq::new(i as nat, |j: int| (0u8, 0u8, 0u8, 0u8)));
        }
        DDTex2Image { mipmap_levels: 0, mipmap_current: 0, height, width, pixels }
    }

    /// An image over pixels that are already there, with level zero selected.
    pub fn from_parts(height: u32, width: u32, mipmap_levels: u8, pixels: Vec<Rgba>) -> (r: Self)
        ensures
            r.width == width,
            r.height == height,
            r.mipmap_levels == mipmap_levels,
            r.pixels == pixels,
            r.current_level() == 0,
            r.wf(),
    {
        DDTex2Image { mipmap_levels, mipmap_current: 0, height, width, pixels }
    }

    /// Appends the texture file for this image. The whole mipmap chain is
    /// written, whichever level is selected.
    pub fn save(&self, dst: &mut Vec<u8>)
        ensures
            final(dst)@ == old(dst)@ + self.spec_bytes(),
    {
        dst.push(0x11);
        dst.push(0x40);
        write_u32_le(dst, self.height);
        write_u32_le(dst, self.width);
        dst.push(self.mipmap_levels);
        let ghost start = dst@;
        assert(start =~= old(dst)@ + seq![0x11u8, 0x40u8] + le_bytes_u32(self.height)
            + le_bytes_u32(self.width) + seq![self.mipmap_levels]);
        let mut i: usize = 0;
        assert(pixel_bytes(self.pixels@.take(0)) =~= Seq::<u8>::empty());
        while i < self.pixels.len()
            invariant
                i <= self.pixels@.len(),
                dst@ == start + pixel_bytes(self.pixels@.take(i as int)),
            decreases self.pixels@.len() - i,
        {
            let p = self.pixels[i];
            proof {
                lemma_pixel_bytes_push(self.pixels@.take(i as int), p);
                assert(self.pixels@.take(i + 1) =~= self.pixels@.take(i as int).push(p));
            }
            dst.push(p.0);
            dst.push(p.1);
            dst.push(p.2);
            dst.push(p.3);
            assert(dst@ =~= start + (pixel_bytes(self.pixels@.take(i as int)) + seq![
                p.0,
                p.1,
                p.2,
                p.3,
            ]));
            i += 1;
        }
        assert(self.pixels@.take(i as int) =~= self.pixels@);
        assert(dst@ =~= old(dst)@ + self.spec_bytes());
    }

    /// Selects the mipmap level that pixel coordinates are read at. Level
    /// zero can always be selected; any other level only where both sides
    /// are powers of two. On an error the selection stays as it was.
    pub fn set_mipmap(&mut self, new: u8) -> (r: Result<(), DDError>)
        ensures
            final(self).height == old(self).height,
            final(self).width == old(self).width,
            final(self).mipmap_levels == old(self).mipmap_levels,
            final(self).pixels == old(self).pixels,
            match r {
                Ok(_) => (new == 0 || supports_mipmaps(old(self).height, old(self).width))
                    && final(self).current_level() == new && final(self).wf(),
                Err(e) => e == DDError::UnsupportedMipmapLevel && new != 0 && !supports_mipmaps(
                    old(self).height,
                    old(self).width,
                ) && final(self).current_level() == old(self).current_level(),
            },
    {
        if new != 0 && !(is_power_of_two(self.height) && is_power_of_two(self.width)) {
            return Err(DDError::UnsupportedMipmapLevel);
        }
        self.mipmap_current = new;
        Ok(())
    }

    pub fn cur_width(&self) -> (r: u32)
        ensures
            r == self.spec_cur_width(),
    {
        side_at_level(self.width, self.mipmap_current as u32)
    }

    pub fn cur_height(&self) -> (r: u32)
        ensures
            r == self.spec_cur_height(),
    {
        side_at_level(self.height, self.mipmap_current as u32)
    }

    /// Width and height of the selected level.
    pub fn dimensions(&self) -> (r: (u32, u32))
        ensures
            r.0 == self.spec_cur_width(),
            r.1 == self.spec_cur_height(),
    {
        (self.cur_width(), self.cur_height())
    }

    /// The rectangle of the selected level: left, top, width, height.
    pub fn bounds(&self) -> (r: (u32, u32, u32, u32))
        ensures
            r.0 == 0,
            r.1 == 0,
            r.2 == self.spec_cur_width(),
            r.3 == self.spec_cur_height(),
    {
        (0, 0, self.cur_width(), self.cur_height())
    }

    /// The place of a pixel in 128 bits, which hold it for any image.
    fn wide_pos(&self, x: u32, y: u32) -> (r: u128)
        ensures
            r == self.spec_pos(x, y),
    {
        let start = level_start(self.height, self.width, self.mipmap_current as u32);
        let w = self.cur_width() as u128;
        proof {
            let a = w as int;
            let b = y as int;
            assert(0 <= a * b <= 0xFFFF_FFFE_0000_0001) by (nonlinear_arith)
                requires
                    0 <= a <= 0xFFFF_FFFF,
                    0 <= b <= 0xFFFF_FFFF,
            ;
        }
        start + w * (y as u128) + (x as u128)
    }

    /// Place in the pixel buffer of the pixel at `(x, y)` of the selected
    /// level, or `None` where no buffer on this machine reaches that far.
    pub fn pos(&self, x: u32, y: u32) -> (r: Option<usize>)
        ensures
            r == (if self.spec_pos(x, y) <= usize::MAX {
                Some(self.spec_pos(x, y) as usize)
            } else {
                None
            }),
    {
        let at = self.wide_pos(x, y);
        if at <= usize::MAX as u128 {
            Some(at as usize)
        } else {
            None
        }
    }

    /// The pixel at `(x, y)` of the selected level. A place beyond the end
    /// of the buffer gives an opaque white pixel.
    pub fn pixel(&self, x: u32, y: u32) -> (r: Rgba)
        ensures
            r == self.spec_pixel(x, y),
    {
        let at = self.wide_pos(x, y);
        if at < self.pixels.len() as u128 {
            self.pixels[at as usize]
        } else {
            (0xFF, 0xFF, 0xFF, 0xFF)
        }
    }

    /// Tells whether the buffer holds a pixel at `(x, y)` of the selected
    /// level.
    pub fn holds(&self, x: u32, y: u32) -> (r: bool)
        ensures
            r == (self.spec_pos(x, y) < self.pixels@.len()),
    {
        self.wide_pos(x, y) < self.pixels.len() as u128
    }

    /// Sets the pixel at `(x, y)` of the selected level.
    pub fn put_pixel(&mut self, x: u32, y: u32, pixel: Rgba)
        requires
            old(self).spec_pos(x, y) < old(self).pixels@.len(),
        ensures
            final(self).pixels@ == old(self).pixels@.update(
                old(self).spec_pos(x, y) as int,
                pixel,
            ),
            final(self).height == old(self).height,
            final(self).width == old(self).width,
            final(self).mipmap_levels == old(self).mipmap_levels,
            final(self).current_level() == old(self).current_level(),
    {
        let count = self.pixels.len();
        let wide = self.wide_pos(x, y);
        assert(wide < count);
        self.pixels.set(wide as usize, pixel);
    }
}

/// Reading what was written gives back what was written: from the bytes of
/// a saved image the header is read as the image has it, and the pixels
/// that follow the header are the image's pixels, all levels of them.
pub proof fn lemma_saved_image_reads_back(img: DDTex2Image)
    ensures
        spec_tex2_header(img.spec_bytes()) == Ok::<(u32, u32, u8), DDError>(
            (img.height, img.width, img.mipmap_levels),
        ),
        img.spec_bytes().len() == 11 + 4 * img.pixels@.len(),
        spec_pixels(img.spec_bytes().skip(11), img.pixels@.len()) == img.pixels@,
{
    let b = img.spec_bytes();
    let body = pixel_bytes(img.pixels@);
    let after_width = seq![img.mipmap_levels] + body;
    let after_height = le_bytes_u32(img.width) + after_width;
    let after_magic = le_bytes_u32(img.height) + after_height;
    assert(b =~= seq![0x11u8, 0x40u8] + after_magic);
    assert(b.skip(2) =~= after_magic);
    lemma_le_u32_of_bytes(img.height, after_height);
    assert(b.skip(6) =~= after_height);
    lemma_le_u32_of_bytes(img.width, after_width);
    assert(b[10] == img.mipmap_levels);
    assert(b.skip(11) =~= body);
    assert(body + Seq::<u8>::empty() =~= body);
    lemma_pixels_roundtrip(img.pixels@, Seq::empty());
}

/// Reads `count` pixels, the first of which starts at `start`.
fn read_pixels(input: &[u8], start: usize, count: usize) -> (r: Vec<Rgba>)
    requires
        start + 4 * count <= input@.len(),
    ensures
        r@ == spec_pixels(input@.skip(start as int), count as nat),
{
    let ghost b = input@.skip(start as int);
    let mut pixels: Vec<Rgba> = Vec::new();
    let mut i: usize = 0;
    let len = input.len();
    assert(pixels@ =~= spec_pixels(b, 0));
    while i < count
        invariant
            i <= count,
            len == input@.len(),
            start + 4 * count <= len,
            b == input@.skip(start as int),
            pixels@ == spec_pixels(b, i as nat),
        decreases count - i,
    {
        let at = start + 4 * i;
        pixels.push((input[at], input[at + 1], input[at + 2], input[at + 3]));
        i += 1;
        assert(pixels@ =~= spec_pixels(b, i as nat));
    }
    pixels
}

/// Reads a texture whose header is trusted: exactly the pixels of the full
/// image and of the declared mipmap levels are read. On success the second
/// value is the number of bytes that follow the last pixel and were not
/// used.
pub fn tex2_image(input: &[u8]) -> (r: Result<(DDTex2Image, usize), DDError>)
    ensures
        match spec_tex2_header(input@) {
            Err(e) => r matches Err(e2) && e2 == e,
            Ok((height, width, levels)) => {
                let total = total_pixel_count(height, width, levels);
                if input@.len() < 11 + 4 * total {
                    r matches Err(e2) && e2 == DDError::IncompleteInput
                } else {
                    &&& r matches Ok((img, unused))
                    &&& img.height == height
                    &&& img.width == width
                    &&& img.mipmap_levels == levels
                    &&& img.current_level() == 0
                    &&& img.pixels@ == spec_pixels(input@.skip(11), total)
                    &&& unused == input@.len() - 11 - 4 * total
                }
            },
        },
{
    let (height, width, levels) = match tex2_header(input) {
        Ok(h) => h,
        Err(e) => { return Err(e); },
    };
    let total = level_start(height, width, levels as u32 + 1);
    let avail = input.len() - 11;
    if 4 * total > avail as u128 {
        return Err(DDError::IncompleteInput);
    }
    let count = total as usize;
    let pixels = read_pixels(input, 11, count);
    Ok((DDTex2Image::from_parts(height, width, levels, pixels), avail - 4 * count))
}

/// Reads a texture whose count of mipmap levels is not trusted: pixels are
/// read for as long as four more bytes are there. On success the second
/// value is the number of bytes, fewer than four, that were left over.
pub fn tex2_image_unbounded(input: &[u8]) -> (r: Result<(DDTex2Image, usize), DDError>)
    ensures
        match spec_tex2_header(input@) {
            Err(e) => r matches Err(e2) && e2 == e,
            Ok((height, width, levels)) => {
                &&& r matches Ok((img, unused))
                &&& img.height == height
                &&& img.width == width
                &&& img.mipmap_levels == levels
                &&& img.current_level() == 0
                &&& img.pixels@ == spec_pixels(
                    input@.skip(11),
                    ((input@.len() - 11) / 4) as nat,
                )
                &&& unused == (input@.len() - 11) % 4
            },
        },
{
    let (height, width, levels) = match tex2_header(input) {
        Ok(h) => h,
        Err(e) => { return Err(e); },
    };
    let avail = input.len() - 11;
    let count = avail / 4;
    let pixels = read_pixels(input, 11, count);
    Ok((DDTex2Image::from_parts(height, width, levels, pixels), avail % 4))
}

/// What one mipmap level below the full image takes of the pixel buffer.
#[derive(Debug, PartialEq, Eq, Clone, Copy)]
pub struct MipLevelInfo {
    pub level: u8,
    pub width: u32,
    pub height: u32,
    /// Number of pixels of this level
    pub pixel_count: u64,
    /// Pixels of the buffer that follow this level; negative where the
    /// buffer ends before the level does
    pub remaining: i128,
}

/// How the pixel buffer of an image compares with what its header declares.
#[derive(Debug, PartialEq, Eq, Clone)]
pub struct Tex2Inspection {
    /// Number of pixels of the full image
    pub base_pixels: u64,
    /// Pixels of the buffer beyond the full image; negative where the buffer
    /// does not even hold that
    pub extra_pixels: i128,
    /// One line for each level from one up to, but not including, the
    /// declared count
    pub levels: Vec<MipLevelInfo>,
}

impl DDTex2Image {
    /// The pixels of the selected level, row after row.
    pub open spec fn spec_level_image(&self) -> Seq<Rgba> {
        Seq::new(
            self.spec_cur_width() * self.spec_cur_height(),
            |i: int|
                self.spec_pixel(
                    (i % self.spec_cur_width() as int) as u32,
                    (i / self.spec_cur_width() as int) as u32,
                ),
        )
    }

    /// The selected level as RGBA bytes, row after row, as an image encoder
    /// takes them.
    pub fn level_rgba(&self) -> (r: Vec<u8>)
        ensures
            r@ == pixel_bytes(self.spec_level_image()),
    {
        let w = self.cur_width();
        let h = self.cur_height();
        let mut out: Vec<u8> = Vec::new();
        let ghost image = self.spec_level_image();
        proof {
            let a = w as int;
            let b = h as int;
            assert(0 <= a * b <= 0xFFFF_FFFE_0000_0001) by (nonlinear_arith)
                requires
                    0 <= a <= 0xFFFF_FFFF,
                    0 <= b <= 0xFFFF_FFFF,
            ;
        }
        let count: u64 = w as u64 * h as u64;
        let mut i: u64 = 0;
        assert(pixel_bytes(image.take(0)) =~= Seq::<u8>::empty());
        while i < count
            invariant
                i <= count,
                count == w * h,
                w == self.spec_cur_width(),
                h == self.spec_cur_height(),
                image == self.spec_level_image(),
                image.len() == count,
                out@ == pixel_bytes(image.take(i as int)),
            decreases count - i,
        {
            proof {
                let a = w as int;
                let b = h as int;
                let k = i as int;
                assert(a > 0 && k / a < b && 0 <= k % a < a && 0 <= k / a) by (nonlinear_arith)
                    requires
                        0 <= k < a * b,
                        0 <= a,
                        0 <= b,
                ;
            }
            let x = (i % w as u64) as u32;
            let y = (i / w as u64) as u32;
            let p = self.pixel(x, y);
            proof {
                assert(image[i as int] == p);
                lemma_pixel_bytes_push(image.take(i as int), p);
                assert(image.take(i + 1) =~= image.take(i as int).push(p));
            }
            let ghost before = out@;
            out.push(p.0);
            out.push(p.1);
            out.push(p.2);
            out.push(p.3);
            assert(out@ =~= before + seq![p.0, p.1, p.2, p.3]);
            i += 1;
        }
        assert(image.take(i as int) =~= image);
        out
    }

    /// Compares the pixel buffer with what the header declares: how many
    /// pixels the full image takes, how many the buffer holds beyond it,
    /// and what is left after each mipmap level.
    pub fn inspect(&self) -> (r: Tex2Inspection)
        ensures
            r.base_pixels == self.width * self.height,
            r.extra_pixels == self.pixels@.len() - self.width * self.height,
            r.levels@.len() == (if self.mipmap_levels >= 1 {
                self.mipmap_levels - 1
            } else {
                0
            }),
            forall|k: int|
                0 <= k < r.levels@.len() ==> {
                    let info = #[trigger] r.levels@[k];
                    &&& info.level == k + 1
                    &&& info.width == level_side(self.width, (k + 1) as nat)
                    &&& info.height == level_side(self.height, (k + 1) as nat)
                    &&& info.pixel_count == level_pixels(self.height, self.width, (k + 1) as nat)
                    &&& info.remaining == self.pixels@.len() - spec_calc_offset(
                        self.height,
                        self.width,
                        (k + 2) as nat,
                    )
                },
    {
        let held = self.pixels.len() as i128;
        proof {
            let a = self.width as int;
            let b = self.height as int;
            assert(0 <= a * b <= 0xFFFF_FFFE_0000_0001) by (nonlinear_arith)
                requires
                    0 <= a <= 0xFFFF_FFFF,
                    0 <= b <= 0xFFFF_FFFF,
            ;
        }
        let base: u64 = self.width as u64 * self.height as u64;
        let mut levels: Vec<MipLevelInfo> = Vec::new();
        let mut level: u8 = 1;
        while level < self.mipmap_levels
            invariant
                1 <= level,
                level <= self.mipmap_levels || level == 1,
                held == self.pixels@.len(),
                levels@.len() == level - 1,
                forall|k: int|
                    0 <= k < levels@.len() ==> {
                        let info = #[trigger] levels@[k];
                        &&& info.level == k + 1
                        &&& info.width == level_side(self.width, (k + 1) as nat)
                        &&& info.height == level_side(self.height, (k + 1) as nat)
                        &&& info.pixel_count == level_pixels(
                            self.height,
                            self.width,
                            (k + 1) as nat,
                        )
                        &&& info.remaining == self.pixels@.len() - spec_calc_offset(
                            self.height,
                            self.width,
                            (k + 2) as nat,
                        )
                    },
            decreases self.mipmap_levels - level,
        {
            let w = side_at_level(self.width, level as u32);
            let h = side_at_level(self.height, level as u32);
            proof {
                lemma_level_pixels_bounds(self.height, self.width, level as nat);
                assert(w as u64 * h as u64 == level_pixels(self.height, self.width, level as nat));
            }
            let end = level_start(self.height, self.width, level as u32 + 1);
            let ghost before = levels@;
            levels.push(
                MipLevelInfo {
                    level,
                    width: w,
                    height: h,
                    pixel_count: w as u64 * h as u64,
                    remaining: held - end as i128,
                },
            );
            assert forall|k: int| 0 <= k < levels@.len() implies {
                let info = #[trigger] levels@[k];
                &&& info.level == k + 1
                &&& info.width == level_side(self.width, (k + 1) as nat)
                &&& info.height == level_side(self.height, (k + 1) as nat)
                &&& info.pixel_count == level_pixels(self.height, self.width, (k + 1) as nat)
                &&& info.remaining == self.pixels@.len() - spec_calc_offset(
                    self.height,
                    self.width,
                    (k + 2) as nat,
                )
            } by {
                if k < before.len() {
                    assert(levels@[k] == before[k]);
                }
            }
            level = level + 1;
        }
        Tex2Inspection { base_pixels: base, extra_pixels: held - base as i128, levels }
    }
}

} // verus!

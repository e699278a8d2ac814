use crate::types16::Pixel16;
use std::cmp::Ordering;
use vstd::std_specs::cmp::PartialOrdSpec;
use vstd::prelude::*;

verus! {

/// The pixel that the codec takes as coming before the first one.
pub open spec fn start_pixel() -> Pixel {
    Pixel { r: 0, g: 0, b: 0, a: 255 }
}

/// The pixel with every channel zero, which fills a fresh color cache.
pub open spec fn zero_pixel() -> Pixel {
    Pixel { r: 0, g: 0, b: 0, a: 0 }
}

/// A fresh color cache: 64 zero pixels.
pub open spec fn empty_cache() -> Seq<Pixel> {
    Seq::new(64, |_i: int| zero_pixel())
}

/// The eight bytes that close every stream.
pub open spec fn end_marker() -> Seq<u8> {
    seq![0u8, 0u8, 0u8, 0u8, 0u8, 0u8, 0u8, 1u8]
}

/// One pixel: four 8-bit channels.
#[derive(Clone, Copy, Debug, PartialEq, Eq, PartialOrd, Structural)]
pub struct Pixel {
    pub r: u8,
    pub g: u8,
    pub b: u8,
    pub a: u8,
}

/// The slot of the color cache that a pixel goes to.
pub open spec fn pixel_hash(p: Pixel) -> int {
    (3 * p.r + 5 * p.g + 7 * p.b + 11 * p.a) % 64
}

impl Default for Pixel {
    fn default() -> (r: Pixel)
        ensures
            r == (Pixel { r: 0, g: 0, b: 0, a: 0 }),
    {
        Pixel { r: 0, g: 0, b: 0, a: 0 }
    }
}

impl Pixel {
    pub fn new(r: u8, g: u8, b: u8, a: u8) -> (p: Pixel)
        ensures
            p == (Pixel { r, g, b, a }),
    {
        Pixel { r, g, b, a }
    }

    pub fn extract(&self) -> (t: (u8, u8, u8, u8))
        ensures
            t == (self.r, self.g, self.b, self.a),
    {
        (self.r, self.g, self.b, self.a)
    }

    pub fn hash(&self) -> (h: u8)
        ensures
            h == pixel_hash(*self),
            h < 64,
    {
        ((self.r as u32 * 3 + self.g as u32 * 5 + self.b as u32 * 7 + self.a as u32 * 11) % 64) as u8
    }

    /// The four channels in the order r, g, b, a.
    pub fn as_bytes(&self) -> (v: Vec<u8>)
        ensures
            v@ == seq![self.r, self.g, self.b, self.a],
    {
        let mut v: Vec<u8> = Vec::with_capacity(4);
        self.append_self(&mut v);
        v
    }

    /// Appends the four channels in the order r, g, b, a.
    pub fn append_self(&self, bytestream: &mut Vec<u8>)
        ensures
            final(bytestream)@ == old(bytestream)@ + seq![self.r, self.g, self.b, self.a],
    {
        bytestream.push(self.r);
        bytestream.push(self.g);
        bytestream.push(self.b);
        bytestream.push(self.a);
        assert(final(bytestream)@ =~= old(bytestream)@ + seq![self.r, self.g, self.b, self.a]);
    }
}

/// A pixel of either channel depth.
#[derive(Clone, Copy, Debug)]
pub enum DynamicPixel {
    Pixel(Pixel),
    Pixel16(Pixel16),
}

impl DynamicPixel {
    pub fn as_pixel(&self) -> (r: Result<Pixel, String>)
        ensures
            match *self {
                DynamicPixel::Pixel(p) => r == Ok::<Pixel, String>(p),
                DynamicPixel::Pixel16(_) => r is Err,
            },
    {
        match self {
            DynamicPixel::Pixel(value) => Ok(*value),
            DynamicPixel::Pixel16(_) => Err("Cannot convert a 16-bit pixel to an 8-bit pixel".to_owned()),
        }
    }

    pub fn as_pixel16(&self) -> (r: Result<Pixel16, String>)
        ensures
            match *self {
                DynamicPixel::Pixel16(p) => r == Ok::<Pixel16, String>(p),
                DynamicPixel::Pixel(_) => r is Err,
            },
    {
        match self {
            DynamicPixel::Pixel16(value) => Ok(*value),
            DynamicPixel::Pixel(_) => Err("Cannot convert an 8-bit pixel to a 16-bit pixel".to_owned()),
        }
    }
}

/// `x` modulo 256, read as a two's-complement byte.
pub open spec fn signed_byte(x: int) -> int {
    let m = x % 256;
    if m < 128 {
        m
    } else {
        m - 256
    }
}

/// Reduces a difference of bytes to one signed byte, wrapping modulo 256.
fn wrap_to_i8(d: i16) -> (r: i8)
    requires
        -512 < d < 512,
    ensures
        r == signed_byte(d as int),
{
    let m: i16 = (d + 512) % 256;
    assert(m == (d as int) % 256);
    if m < 128 {
        m as i8
    } else {
        (m - 256) as i8
    }
}

/// A channel-wise signed difference between two pixels.
#[derive(Clone, Copy, Debug, PartialEq, Eq, Structural)]
pub struct PixelDiff {
    pub r: i8,
    pub g: i8,
    pub b: i8,
    pub a: i8,
}

/// Lexicographic order on (r, g, b, a).
pub open spec fn diff_cmp(x: PixelDiff, y: PixelDiff) -> Ordering {
    if x.r < y.r {
        Ordering::Less
    } else if x.r > y.r {
        Ordering::Greater
    } else if x.g < y.g {
        Ordering::Less
    } else if x.g > y.g {
        Ordering::Greater
    } else if x.b < y.b {
        Ordering::Less
    } else if x.b > y.b {
        Ordering::Greater
    } else if x.a < y.a {
        Ordering::Less
    } else if x.a > y.a {
        Ordering::Greater
    } else {
        Ordering::Equal
    }
}

fn cmp_i8(x: i8, y: i8) -> (o: Ordering)
    ensures
        o == (if x < y {
            Ordering::Less
        } else if x > y {
            Ordering::Greater
        } else {
            Ordering::Equal
        }),
{
    if x < y {
        Ordering::Less
    } else if x > y {
        Ordering::Greater
    } else {
        Ordering::Equal
    }
}

impl PartialOrd for PixelDiff {
    fn partial_cmp(&self, other: &PixelDiff) -> (o: Option<Ordering>) {
        if self.r != other.r {
            Some(cmp_i8(self.r, other.r))
        } else if self.g != other.g {
            Some(cmp_i8(self.g, other.g))
        } else if self.b != other.b {
            Some(cmp_i8(self.b, other.b))
        } else {
            Some(cmp_i8(self.a, other.a))
        }
    }
}

impl vstd::std_specs::cmp::PartialOrdSpecImpl for PixelDiff {
    open spec fn obeys_partial_cmp_spec() -> bool {
        true
    }

    open spec fn partial_cmp_spec(&self, other: &PixelDiff) -> Option<Ordering> {
        Some(diff_cmp(*self, *other))
    }
}

/// A closed range `[lower_limit, upper_limit]` with `lower_limit < upper_limit`.
pub struct Range<T> {
    pub lower_limit: T,
    pub upper_limit: T,
}

impl<T: PartialOrd> Range<T> {
    /// Builds the range when `lower < upper`.
    pub fn new(lower: T, upper: T) -> (r: Result<Range<T>, ()>)
        ensures
            T::obeys_partial_cmp_spec() ==> (r is Ok <==> lower.partial_cmp_spec(&upper) == Some(
                Ordering::Less,
            )),
            r matches Ok(rg) ==> rg.lower_limit == lower && rg.upper_limit == upper,
    {
        if lower < upper {
            Ok(Range { lower_limit: lower, upper_limit: upper })
        } else {
            Err(())
        }
    }
}

impl PixelDiff {
    /// The plain difference `p1 - p2`, each channel wrapped to a signed byte.
    pub fn new(p1: &Pixel, p2: &Pixel) -> (d: PixelDiff)
        ensures
            d.r == signed_byte(p1.r - p2.r),
            d.g == signed_byte(p1.g - p2.g),
            d.b == signed_byte(p1.b - p2.b),
            d.a == signed_byte(p1.a - p2.a),
    {
        PixelDiff {
            r: wrap_to_i8(p1.r as i16 - p2.r as i16),
            g: wrap_to_i8(p1.g as i16 - p2.g as i16),
            b: wrap_to_i8(p1.b as i16 - p2.b as i16),
            a: wrap_to_i8(p1.a as i16 - p2.a as i16),
        }
    }

    pub fn new2(r: i8, g: i8, b: i8, a: i8) -> (d: PixelDiff)
        ensures
            d == (PixelDiff { r, g, b, a }),
    {
        PixelDiff { r, g, b, a }
    }

    /// The luma-biased difference: green as is, red and blue relative to green.
    pub fn new_diff(p1: &Pixel, p2: &Pixel) -> (d: PixelDiff)
        ensures
            d.g == signed_byte(p1.g - p2.g),
            d.r == signed_byte((p1.r - p2.r) - (p1.g - p2.g)),
            d.b == signed_byte((p1.b - p2.b) - (p1.g - p2.g)),
            d.a == signed_byte(p1.a - p2.a),
    {
        let dg: i16 = p1.g as i16 - p2.g as i16;
        PixelDiff {
            g: wrap_to_i8(dg),
            r: wrap_to_i8((p1.r as i16 - p2.r as i16) - dg),
            b: wrap_to_i8((p1.b as i16 - p2.b as i16) - dg),
            a: wrap_to_i8(p1.a as i16 - p2.a as i16),
        }
    }

    /// Whether every channel lies within the range's bounds, both included.
    pub fn belongs(&self, range: Range<PixelDiff>) -> (b: bool)
        ensures
            b == (range.lower_limit.r <= self.r <= range.upper_limit.r && range.lower_limit.g
                <= self.g <= range.upper_limit.g && range.lower_limit.b <= self.b
                <= range.upper_limit.b && range.lower_limit.a <= self.a <= range.upper_limit.a),
    {
        self.r >= range.lower_limit.r && self.g >= range.lower_limit.g && self.b
            >= range.lower_limit.b && self.a >= range.lower_limit.a && self.r
            <= range.upper_limit.r && self.g <= range.upper_limit.g && self.b
            <= range.upper_limit.b && self.a <= range.upper_limit.a
    }

    pub fn extract(&self) -> (t: (i8, i8, i8, i8))
        ensures
            t == (self.r, self.g, self.b, self.a),
    {
        (self.r, self.g, self.b, self.a)
    }

    pub fn is_alpha_zero(&self) -> (z: bool)
        ensures
            z == (self.a == 0),
    {
        self.a == 0
    }
}

/// The four bytes of `x`, most significant first.
pub open spec fn be32(x: u32) -> Seq<u8> {
    seq![
        (x / 0x100_0000) as u8,
        (x / 0x1_0000 % 256) as u8,
        (x / 0x100 % 256) as u8,
        (x % 256) as u8,
    ]
}

/// The four magic bytes `q`, `o`, `i`, `f` that open every stream.
pub open spec fn magic() -> Seq<u8> {
    seq![0x71u8, 0x6Fu8, 0x69u8, 0x66u8]
}

/// The 14-byte header of a stream with these fields.
pub open spec fn header_bytes(width: u32, height: u32, chanels: u8, colorspace: u8) -> Seq<u8> {
    magic() + be32(width) + be32(height) + seq![chanels, colorspace]
}

fn push_be32(bytestream: &mut Vec<u8>, x: u32)
    ensures
        final(bytestream)@ == old(bytestream)@ + be32(x),
{
    bytestream.push((x / 0x100_0000) as u8);
    bytestream.push((x / 0x1_0000 % 256) as u8);
    bytestream.push((x / 0x100 % 256) as u8);
    bytestream.push((x % 256) as u8);
    assert(final(bytestream)@ =~= old(bytestream)@ + be32(x));
}

/// The stream header: magic, width and height (big-endian), channel count
/// and colorspace tag.
pub struct QoiHeader {
    pub magic_0: u8,
    pub magic_1: u8,
    pub magic_2: u8,
    pub magic_3: u8,
    pub width: u32,
    pub height: u32,
    pub chanels: u8,
    pub colorspace: u8,
}

impl QoiHeader {
    pub open spec fn bytes(&self) -> Seq<u8> {
        seq![self.magic_0, self.magic_1, self.magic_2, self.magic_3] + be32(self.width) + be32(
            self.height,
        ) + seq![self.chanels, self.colorspace]
    }

    pub fn new(width: u32, height: u32, chanels: u8, colorspace: u8) -> (h: QoiHeader)
        ensures
            h.width == width,
            h.height == height,
            h.chanels == chanels,
            h.colorspace == colorspace,
            h.bytes() == header_bytes(width, height, chanels, colorspace),
    {
        let h = QoiHeader {
            magic_0: 0x71,
            magic_1: 0x6F,
            magic_2: 0x69,
            magic_3: 0x66,
            width,
            height,
            chanels,
            colorspace,
        };
        assert(h.bytes() =~= header_bytes(width, height, chanels, colorspace));
        h
    }

    pub fn as_bytes(&self) -> (v: Vec<u8>)
        ensures
            v@ == self.bytes(),
    {
        let mut v: Vec<u8> = Vec::with_capacity(14);
        self.append_self(&mut v);
        v
    }

    pub fn append_self(&self, bytestream: &mut Vec<u8>)
        ensures
            final(bytestream)@ == old(bytestream)@ + self.bytes(),
    {
        let ghost start = bytestream@;
        bytestream.push(self.magic_0);
        bytestream.push(self.magic_1);
        bytestream.push(self.magic_2);
        bytestream.push(self.magic_3);
        push_be32(bytestream, self.width);
        push_be32(bytestream, self.height);
        bytestream.push(self.chanels);
        bytestream.push(self.colorspace);
        assert(bytestream@ =~= start + self.bytes());
    }
}

/// RGB operation: tag `0xFE` and three literal channels; alpha is kept.
pub struct QoiOpRGB {
    pub tag: u8,
    pub r: u8,
    pub g: u8,
    pub b: u8,
}

impl QoiOpRGB {
    pub open spec fn bytes(&self) -> Seq<u8> {
        seq![self.tag, self.r, self.g, self.b]
    }

    pub fn new(r: u8, g: u8, b: u8) -> (op: QoiOpRGB)
        ensures
            op.bytes() == seq![0xFEu8, r, g, b],
    {
        QoiOpRGB { tag: 0xFE, r, g, b }
    }

    pub fn as_bytes(&self) -> (v: Vec<u8>)
        ensures
            v@ == self.bytes(),
    {
        let mut v: Vec<u8> = Vec::with_capacity(4);
        self.append_self(&mut v);
        v
    }

    pub fn append_self(&self, bytestream: &mut Vec<u8>)
        ensures
            final(bytestream)@ == old(bytestream)@ + self.bytes(),
    {
        bytestream.push(self.tag);
        bytestream.push(self.r);
        bytestream.push(self.g);
        bytestream.push(self.b);
        assert(final(bytestream)@ =~= old(bytestream)@ + self.bytes());
    }
}

/// RGBA operation: tag `0xFF` and four literal channels.
pub struct QoiOpRGBA {
    pub tag: u8,
    pub r: u8,
    pub g: u8,
    pub b: u8,
    pub a: u8,
}

impl QoiOpRGBA {
    pub open spec fn bytes(&self) -> Seq<u8> {
        seq![self.tag, self.r, self.g, self.b, self.a]
    }

    pub fn new(r: u8, g: u8, b: u8, a: u8) -> (op: QoiOpRGBA)
        ensures
            op.bytes() == seq![0xFFu8, r, g, b, a],
    {
        QoiOpRGBA { tag: 0xFF, r, g, b, a }
    }

    pub fn as_bytes(&self) -> (v: Vec<u8>)
        ensures
            v@ == self.bytes(),
    {
        let mut v: Vec<u8> = Vec::with_capacity(5);
        self.append_self(&mut v);
        v
    }

    pub fn append_self(&self, bytestream: &mut Vec<u8>)
        ensures
            final(bytestream)@ == old(bytestream)@ + self.bytes(),
    {
        bytestream.push(self.tag);
        bytestream.push(self.r);
        bytestream.push(self.g);
        bytestream.push(self.b);
        bytestream.push(self.a);
        assert(final(bytestream)@ =~= old(bytestream)@ + self.bytes());
    }
}

/// INDEX operation: `00iiiiii`, a reference to slot `i` of the color cache.
pub struct QoiOpIndex {
    pub tag_index: u8,
}

impl QoiOpIndex {
    pub fn new(index: u8) -> (op: QoiOpIndex)
        requires
            index < 64,
        ensures
            op.tag_index == index,
    {
        QoiOpIndex { tag_index: index }
    }

    pub fn as_bytes(&self) -> (v: Vec<u8>)
        ensures
            v@ == seq![self.tag_index],
    {
        let mut v: Vec<u8> = Vec::with_capacity(1);
        self.append_self(&mut v);
        v
    }

    pub fn append_self(&self, bytestream: &mut Vec<u8>)
        ensures
            final(bytestream)@ == old(bytestream)@.push(self.tag_index),
    {
        bytestream.push(self.tag_index)
    }
}

/// The DIFF byte `01rrggbb` for channel differences in `[-2, 1]`, each biased by 2.
pub open spec fn diff_byte(dr: int, dg: int, db: int) -> int {
    0x40 + 16 * (dr + 2) + 4 * (dg + 2) + (db + 2)
}

/// DIFF operation: one byte holding three small channel differences.
pub struct QoiOpDiff {
    pub tag_dr_dg_db: u8,
}

impl QoiOpDiff {
    pub fn new(dr: i8, dg: i8, db: i8) -> (op: QoiOpDiff)
        requires
            -2 <= dr <= 1,
            -2 <= dg <= 1,
            -2 <= db <= 1,
        ensures
            op.tag_dr_dg_db == diff_byte(dr as int, dg as int, db as int),
    {
        QoiOpDiff {
            tag_dr_dg_db: 0x40 + 16 * ((dr + 2) as u8) + 4 * ((dg + 2) as u8) + ((db + 2) as u8),
        }
    }

    pub fn as_bytes(&self) -> (v: Vec<u8>)
        ensures
            v@ == seq![self.tag_dr_dg_db],
    {
        let mut v: Vec<u8> = Vec::with_capacity(1);
        self.append_self(&mut v);
        v
    }

    pub fn append_self(&self, bytestream: &mut Vec<u8>)
        ensures
            final(bytestream)@ == old(bytestream)@.push(self.tag_dr_dg_db),
    {
        bytestream.push(self.tag_dr_dg_db)
    }
}

/// The first LUMA byte `10gggggg`: the green difference biased by 32.
pub open spec fn luma_byte0(dg: int) -> int {
    0x80 + (dg + 32)
}

/// The second LUMA byte `rrrrbbbb`: red and blue relative to green, biased by 8.
pub open spec fn luma_byte1(dr_dg: int, db_dg: int) -> int {
    16 * (dr_dg + 8) + (db_dg + 8)
}

/// LUMA operation: two bytes holding a green difference and the red and blue
/// differences relative to it.
pub struct QoiOpLuma {
    pub tag_diffg: u8,
    pub dr_dg_db_dg: u8,
}

impl QoiOpLuma {
    pub open spec fn bytes(&self) -> Seq<u8> {
        seq![self.tag_diffg, self.dr_dg_db_dg]
    }

    pub fn new(diff_green: i8, dr_dg: i8, db_dg: i8) -> (op: QoiOpLuma)
        requires
            -32 <= diff_green <= 31,
            -8 <= dr_dg <= 7,
            -8 <= db_dg <= 7,
        ensures
            op.tag_diffg == luma_byte0(diff_green as int),
            op.dr_dg_db_dg == luma_byte1(dr_dg as int, db_dg as int),
    {
        QoiOpLuma {
            tag_diffg: 0x80 + (diff_green + 32) as u8,
            dr_dg_db_dg: 16 * ((dr_dg + 8) as u8) + ((db_dg + 8) as u8),
        }
    }

    pub fn as_bytes(&self) -> (v: Vec<u8>)
        ensures
            v@ == self.bytes(),
    {
        let mut v: Vec<u8> = Vec::with_capacity(2);
        self.append_self(&mut v);
        v
    }

    pub fn append_self(&self, bytestream: &mut Vec<u8>)
        ensures
            final(bytestream)@ == old(bytestream)@ + self.bytes(),
    {
        bytestream.push(self.tag_diffg);
        bytestream.push(self.dr_dg_db_dg);
        assert(final(bytestream)@ =~= old(bytestream)@ + self.bytes());
    }
}

/// The RUN byte `11rrrrrr` for a run of `run` pixels, `run` in `[1, 62]`.
pub open spec fn run_byte(run: int) -> int {
    0xC0 + (run - 1)
}

/// RUN operation: the previous pixel repeated 1 to 62 times.
pub struct QoiOpRun {
    pub tag_run: u8,
}

impl QoiOpRun {
    pub fn new(run: u8) -> (op: QoiOpRun)
        requires
            1 <= run <= 62,
        ensures
            op.tag_run == run_byte(run as int),
    {
        QoiOpRun { tag_run: 0xC0 + (run - 1) }
    }

    pub fn as_bytes(&self) -> (v: Vec<u8>)
        ensures
            v@ == seq![self.tag_run],
    {
        let mut v: Vec<u8> = Vec::with_capacity(1);
        self.append_self(&mut v);
        v
    }

    pub fn append_self(&self, bytestream: &mut Vec<u8>)
        ensures
            final(bytestream)@ == old(bytestream)@.push(self.tag_run),
    {
        bytestream.push(self.tag_run)
    }
}

} // verus!

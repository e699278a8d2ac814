use crate::types::{DynamicPixel, Pixel};
use crate::types16::Pixel16;
use vstd::prelude::*;

verus! {

/// The bytes that separate the numbers of a PPM header: space and newline.
pub open spec fn is_space(b: u8) -> bool {
    b == 0x20 || b == 0x0A
}

pub open spec fn is_digit(b: u8) -> bool {
    0x30 <= b <= 0x39
}

/// The first index from `i` on that is not a separator.
pub open spec fn skip_spaces(bs: Seq<u8>, i: int) -> int
    decreases bs.len() - i,
{
    if 0 <= i < bs.len() && is_space(bs[i]) {
        skip_spaces(bs, i + 1)
    } else {
        i
    }
}

/// The first index from `i` on that is a separator or the end.
pub open spec fn token_end(bs: Seq<u8>, i: int) -> int
    decreases bs.len() - i,
{
    if 0 <= i < bs.len() && !is_space(bs[i]) {
        token_end(bs, i + 1)
    } else {
        i
    }
}

/// The value of a string of decimal digits.
pub open spec fn digits_value(ds: Seq<u8>) -> nat
    decreases ds.len(),
{
    if ds.len() == 0 {
        0
    } else {
        digits_value(ds.drop_last()) * 10 + (ds.last() - 0x30) as nat
    }
}

/// The number that starts at `i` after any separators, and the index just
/// past it: a non-empty run of digits, worth at most `u32::MAX`, followed by
/// a separator.
pub open spec fn number_at(bs: Seq<u8>, i: int) -> Option<(u32, int)> {
    let start = skip_spaces(bs, i);
    let end = token_end(bs, start);
    let ds = bs.subrange(start, end);
    if start < end < bs.len() && (forall|k: int| 0 <= k < ds.len() ==> is_digit(#[trigger] ds[k]))
        && digits_value(ds) <= u32::MAX {
        Some((digits_value(ds) as u32, end))
    } else {
        None
    }
}

proof fn lemma_skip_spaces(bs: Seq<u8>, i: int)
    requires
        0 <= i <= bs.len(),
    ensures
        i <= skip_spaces(bs, i) <= bs.len(),
    decreases bs.len() - i,
{
    if i < bs.len() && is_space(bs[i]) {
        lemma_skip_spaces(bs, i + 1);
    }
}

proof fn lemma_token_end(bs: Seq<u8>, i: int)
    requires
        0 <= i <= bs.len(),
    ensures
        i <= token_end(bs, i) <= bs.len(),
        forall|k: int| i <= k < token_end(bs, i) ==> !is_space(#[trigger] bs[k]),
    decreases bs.len() - i,
{
    if i < bs.len() && !is_space(bs[i]) {
        lemma_token_end(bs, i + 1);
    }
}

/// A longer string of digits is worth at least as much.
proof fn lemma_digits_monotone(ds: Seq<u8>, k: int)
    requires
        0 <= k <= ds.len(),
        forall|m: int| 0 <= m < ds.len() ==> is_digit(#[trigger] ds[m]),
    ensures
        digits_value(ds.take(k)) <= digits_value(ds),
    decreases ds.len() - k,
{
    if k < ds.len() {
        lemma_digits_monotone(ds, k + 1);
        let t = ds.take(k + 1);
        assert(t.drop_last() =~= ds.take(k));
    } else {
        assert(ds.take(k) =~= ds);
    }
}

/// Reads the number at `*start` (see `number_at`) and moves `*start` past it.
fn read_number(bytestream: &[u8], start: &mut usize) -> (r: Option<u32>)
    requires
        *old(start) <= bytestream@.len(),
    ensures
        match number_at(bytestream@, *old(start) as int) {
            Some((v, e)) => r == Some(v) && *final(start) == e,
            None => r is None,
        },
{
    let ghost bs = bytestream@;
    let n = bytestream.len();
    proof {
        lemma_skip_spaces(bs, *start as int);
    }
    let mut s: usize = *start;
    while s < n && (bytestream[s] == 0x20 || bytestream[s] == 0x0A)
        invariant
            n == bs.len(),
            bs == bytestream@,
            *old(start) <= s <= n,
            skip_spaces(bs, s as int) == skip_spaces(bs, *old(start) as int),
        decreases n - s,
    {
        s += 1;
    }
    proof {
        lemma_token_end(bs, s as int);
    }
    let mut end: usize = s;
    while end < n && bytestream[end] != 0x20 && bytestream[end] != 0x0A
        invariant
            n == bs.len(),
            bs == bytestream@,
            s <= end <= n,
            token_end(bs, end as int) == token_end(bs, s as int),
        decreases n - end,
    {
        end += 1;
    }
    assert(skip_spaces(bs, s as int) == s);
    assert(token_end(bs, end as int) == end);
    let ghost ds = bs.subrange(s as int, end as int);
    if end == s || end == n {
        return None;
    }
    let mut value: u64 = 0;
    let mut k: usize = s;
    while k < end
        invariant
            n == bs.len(),
            bs == bytestream@,
            s <= k <= end < n,
            ds == bs.subrange(s as int, end as int),
            s == skip_spaces(bs, *old(start) as int),
            end == token_end(bs, s as int),
            forall|m: int| 0 <= m < k - s ==> is_digit(#[trigger] ds[m]),
            value == digits_value(ds.take(k - s)),
            value <= u32::MAX,
        decreases end - k,
    {
        let d = bytestream[k];
        if d < 0x30 || d > 0x39 {
            assert(!is_digit(ds[k - s]));
            return None;
        }
        proof {
            assert(ds.take(k - s + 1).drop_last() =~= ds.take(k - s));
        }
        value = value * 10 + (d - 0x30) as u64;
        k += 1;
        if value > 0xFFFF_FFFF {
            proof {
                if forall|m: int| 0 <= m < ds.len() ==> is_digit(#[trigger] ds[m]) {
                    lemma_digits_monotone(ds, k - s);
                }
            }
            return None;
        }
    }
    assert(ds.take(end - s) =~= ds);
    *start = end;
    Some(value as u32)
}

/// The 8-bit pixel whose samples start at `at`; PPM has no alpha, which is
/// set to zero.
pub open spec fn sample_pixel8(bs: Seq<u8>, at: int) -> DynamicPixel {
    DynamicPixel::Pixel(Pixel { r: bs[at], g: bs[at + 1], b: bs[at + 2], a: 0 })
}

/// The 16-bit pixel whose big-endian samples start at `at`; alpha is zero.
pub open spec fn sample_pixel16(bs: Seq<u8>, at: int) -> DynamicPixel {
    DynamicPixel::Pixel16(
        Pixel16 {
            r: (bs[at] * 256 + bs[at + 1]) as u16,
            g: (bs[at + 2] * 256 + bs[at + 3]) as u16,
            b: (bs[at + 4] * 256 + bs[at + 5]) as u16,
            a: 0,
        },
    )
}

/// The bytes per pixel for a maximum sample value: three up to 256, else six.
pub open spec fn sample_size(max_col_val: u32) -> int {
    if max_col_val <= 256 {
        3
    } else {
        6
    }
}

/// A binary PPM (P6) image: `P6`, then width, height and maximum sample value
/// as separated decimal numbers, one separator, and width times height pixels
/// of three samples each (one byte each up to 256, two bytes above). Bytes
/// after the last pixel are ignored. `None` where `bs` is not such an image.
pub open spec fn parse_ppm(bs: Seq<u8>) -> Option<(Seq<DynamicPixel>, u32, u32, u32)> {
    if bs.len() >= 2 && bs[0] == 0x50 && bs[1] == 0x36 {
        match number_at(bs, 2) {
            None => None,
            Some((width, i1)) => match number_at(bs, i1) {
                None => None,
                Some((height, i2)) => match number_at(bs, i2) {
                    None => None,
                    Some((max_col_val, i3)) => {
                        let start = i3 + 1;
                        let count = width * height;
                        let size = sample_size(max_col_val);
                        if start + size * count <= bs.len() {
                            Some(
                                (
                                    Seq::new(
                                        count as nat,
                                        |k: int|
                                            if size == 3 {
                                                sample_pixel8(bs, start + 3 * k)
                                            } else {
                                                sample_pixel16(bs, start + 6 * k)
                                            },
                                    ),
                                    width,
                                    height,
                                    max_col_val,
                                ),
                            )
                        } else {
                            None
                        }
                    },
                },
            },
        }
    } else {
        None
    }
}

/// Reads a binary PPM (P6) image into its pixels, width, height and maximum
/// sample value; anything else gives no pixels and zeros.
pub fn bytestream_to_pixelstream(bytestream: &[u8]) -> (r: (Vec<DynamicPixel>, u32, u32, u32))
    ensures
        match parse_ppm(bytestream@) {
            Some((pixels, width, height, max_col_val)) => r.0@ == pixels && r.1 == width && r.2
                == height && r.3 == max_col_val,
            None => r.0@.len() == 0 && r.1 == 0 && r.2 == 0 && r.3 == 0,
        },
{
    let ghost bs = bytestream@;
    let n = bytestream.len();
    if n < 2 || bytestream[0] != 0x50 || bytestream[1] != 0x36 {
        return (Vec::new(), 0, 0, 0);
    }
    let mut i: usize = 2;
    let width = match read_number(bytestream, &mut i) {
        Some(v) => v,
        None => return (Vec::new(), 0, 0, 0),
    };
    let ghost i1 = i as int;
    let height = match read_number(bytestream, &mut i) {
        Some(v) => v,
        None => return (Vec::new(), 0, 0, 0),
    };
    let max_col_val = match read_number(bytestream, &mut i) {
        Some(v) => v,
        None => return (Vec::new(), 0, 0, 0),
    };
    i += 1;
    let size: usize = if max_col_val <= 256 {
        3
    } else {
        6
    };
    assert(width * height <= u32::MAX * u32::MAX) by (nonlinear_arith)
        requires
            width <= u32::MAX,
            height <= u32::MAX,
    ;
    let count: u64 = width as u64 * height as u64;
    let room: usize = (n - i) / size;
    proof {
        lemma_fits(count as int, size as int, (n - i) as int);
    }
    if count > room as u64 {
        return (Vec::new(), 0, 0, 0);
    }
    let count = count as usize;
    let mut image: Vec<DynamicPixel> = Vec::with_capacity(count);
    let ghost start = i as int;
    let ghost expected = match parse_ppm(bs) {
        Some((pixels, _, _, _)) => pixels,
        None => Seq::empty(),
    };
    let mut k: usize = 0;
    while k < count
        invariant
            bs == bytestream@,
            n == bs.len(),
            k <= count,
            start == i,
            size == sample_size(max_col_val),
            start + size * count <= n,
            expected.len() == count,
            forall|m: int| 0 <= m < count ==> #[trigger] expected[m] == (if size == 3 {
                sample_pixel8(bs, start + 3 * m)
            } else {
                sample_pixel16(bs, start + 6 * m)
            }),
            image@ == expected.take(k as int),
        decreases count - k,
    {
        proof {
            assert(size * k + size <= size * count) by (nonlinear_arith)
                requires
                    k < count,
                    size > 0,
            ;
        }
        let at = i + size * k;
        let p = if size == 3 {
            DynamicPixel::Pixel(
                Pixel::new(bytestream[at], bytestream[at + 1], bytestream[at + 2], 0),
            )
        } else {
            DynamicPixel::Pixel16(
                Pixel16::new(
                    bytestream[at] as u16 * 256 + bytestream[at + 1] as u16,
                    bytestream[at + 2] as u16 * 256 + bytestream[at + 3] as u16,
                    bytestream[at + 4] as u16 * 256 + bytestream[at + 5] as u16,
                    0,
                ),
            )
        };
        image.push(p);
        k += 1;
        assert(image@ =~= expected.take(k as int));
    }
    assert(image@ =~= expected);
    (image, width, height, max_col_val)
}

/// `count` pixels of `size` bytes fit in `room` bytes exactly when `count`
/// is at most `room / size`.
proof fn lemma_fits(count: int, size: int, room: int)
    requires
        0 <= count,
        0 < size,
        0 <= room,
    ensures
        size * count <= room <==> count <= room / size,
{
    vstd::arithmetic::div_mod::lemma_fundamental_div_mod(room, size);
    vstd::arithmetic::div_mod::lemma_mod_bound(room, size);
    let q = room / size;
    assert(room == size * q + room % size);
    assert(0 <= room % size < size);
    assert(size * (q + 1) == size * q + size) by (nonlinear_arith);
    if count <= q {
        assert(size * count <= size * q) by (nonlinear_arith)
            requires
                count <= q,
                0 < size,
        ;
    } else {
        assert(size * count >= size * (q + 1)) by (nonlinear_arith)
            requires
                count >= q + 1,
                0 < size,
        ;
    }
}

/// The decimal digits of `n`, most significant first, without leading zeros.
pub open spec fn decimal(n: nat) -> Seq<u8>
    decreases n,
{
    if n < 10 {
        seq![(0x30 + n) as u8]
    } else {
        decimal(n / 10) + seq![(0x30 + n % 10) as u8]
    }
}

/// The red, green and blue samples of each pixel in turn.
pub open spec fn rgb_bytes(pixels: Seq<Pixel>) -> Seq<u8>
    decreases pixels.len(),
{
    if pixels.len() == 0 {
        seq![]
    } else {
        let p = pixels.last();
        rgb_bytes(pixels.drop_last()) + seq![p.r, p.g, p.b]
    }
}

/// A binary PPM (P6) image with maximum sample value 255.
pub open spec fn p6_bytes(pixels: Seq<Pixel>, width: u32, height: u32) -> Seq<u8> {
    seq![0x50u8, 0x36u8, 0x0Au8] + decimal(width as nat) + seq![0x20u8] + decimal(height as nat)
        + seq![0x0Au8, 0x32u8, 0x35u8, 0x35u8, 0x0Au8] + rgb_bytes(pixels)
}

/// Appends the decimal digits of `n`.
pub fn push_decimal(out: &mut Vec<u8>, n: u32)
    ensures
        final(out)@ == old(out)@ + decimal(n as nat),
    decreases n,
{
    if n >= 10 {
        push_decimal(out, n / 10);
    }
    out.push(0x30 + (n % 10) as u8);
    assert(final(out)@ =~= old(out)@ + decimal(n as nat));
}

/// Writes `pixels` as a binary PPM (P6) image with maximum sample value 255.
pub fn write_p6(pixels: &[Pixel], width: u32, height: u32) -> (out: Vec<u8>)
    ensures
        out@ == p6_bytes(pixels@, width, height),
{
    let mut out: Vec<u8> = Vec::new();
    out.push(0x50);
    out.push(0x36);
    out.push(0x0A);
    push_decimal(&mut out, width);
    out.push(0x20);
    push_decimal(&mut out, height);
    out.push(0x0A);
    out.push(0x32);
    out.push(0x35);
    out.push(0x35);
    out.push(0x0A);
    let ghost head = out@;
    assert(head =~= seq![0x50u8, 0x36u8, 0x0Au8] + decimal(width as nat) + seq![0x20u8] + decimal(
        height as nat,
    ) + seq![0x0Au8, 0x32u8, 0x35u8, 0x35u8, 0x0Au8]);
    let mut i: usize = 0;
    while i < pixels.len()
        invariant
            i <= pixels@.len(),
            out@ == head + rgb_bytes(pixels@.take(i as int)),
        decreases pixels@.len() - i,
    {
        let p = pixels[i];
        out.push(p.r);
        out.push(p.g);
        out.push(p.b);
        i += 1;
        assert(pixels@.take(i as int).drop_last() =~= pixels@.take(i - 1));
        assert(out@ =~= head + rgb_bytes(pixels@.take(i as int)));
    }
    assert(pixels@.take(i as int) =~= pixels@);
    out
}

} // verus!

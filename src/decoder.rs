use crate::ppm::{p6_bytes, write_p6};
use crate::types::{empty_cache, end_marker, magic, pixel_hash, start_pixel, Pixel};
use vstd::prelude::*;

verus! {

/// Why a byte stream could not be decoded.
#[derive(Clone, Copy, Debug, PartialEq, Eq, Structural)]
pub enum DecodeError {
    /// The stream ends before its header, its last pixel or its end marker.
    TruncatedStream,
    /// The stream does not open with the magic bytes `qoif`.
    HeaderMismatch,
}

/// What a well-formed stream decodes to, with the color cache as it stands
/// after the last pixel.
pub struct Decoded {
    pub pixels: Seq<Pixel>,
    pub width: u32,
    pub height: u32,
    pub chanels: u8,
    pub colorspace: u8,
    pub cache: Seq<Pixel>,
}

/// The value of four bytes read most significant first.
pub open spec fn be32_value(b0: u8, b1: u8, b2: u8, b3: u8) -> int {
    b0 * 0x100_0000 + b1 * 0x1_0000 + b2 * 0x100 + b3
}

/// Whether `b` is a RUN tag: `11xxxxxx` but for `0xFE` and `0xFF`.
pub open spec fn is_run_tag(b: u8) -> bool {
    0xC0 <= b < 0xFE
}

/// The number of bytes of the operation whose first byte is `b` (not RUN).
pub open spec fn op_size(b: u8) -> int {
    if b == 0xFE {
        4
    } else if b == 0xFF {
        5
    } else if 0x80 <= b < 0xC0 {
        2
    } else {
        1
    }
}

/// The pixel that the operation at the front of `bs` produces, a RUN aside:
/// INDEX reads the cache, DIFF and LUMA add to `prev` modulo 256, RGB and
/// RGBA give the channels literally.
pub open spec fn op_pixel(bs: Seq<u8>, prev: Pixel, cache: Seq<Pixel>) -> Pixel {
    let b = bs[0];
    if b < 0x40 {
        cache[b as int]
    } else if b < 0x80 {
        Pixel {
            r: ((prev.r + (b / 16) % 4 - 2) % 256) as u8,
            g: ((prev.g + (b / 4) % 4 - 2) % 256) as u8,
            b: ((prev.b + b % 4 - 2) % 256) as u8,
            a: prev.a,
        }
    } else if b < 0xC0 {
        let dg = b % 64 - 32;
        Pixel {
            r: ((prev.r + dg + bs[1] / 16 - 8) % 256) as u8,
            g: ((prev.g + dg) % 256) as u8,
            b: ((prev.b + dg + bs[1] % 16 - 8) % 256) as u8,
            a: prev.a,
        }
    } else if b == 0xFE {
        Pixel { r: bs[1], g: bs[2], b: bs[3], a: prev.a }
    } else {
        Pixel { r: bs[1], g: bs[2], b: bs[3], a: bs[4] }
    }
}

/// Puts `xs` in front of the pixels of a successful result.
pub open spec fn prepend(
    xs: Seq<Pixel>,
    r: Result<(Seq<Pixel>, Seq<Pixel>, Seq<u8>), DecodeError>,
) -> Result<(Seq<Pixel>, Seq<Pixel>, Seq<u8>), DecodeError> {
    match r {
        Ok((px, cache, rest)) => Ok((xs + px, cache, rest)),
        Err(e) => Err(e),
    }
}

/// Decodes `count` pixels from the operations in `bs`, starting after `prev`
/// with the color cache `cache`. On success: the pixels, the cache after the
/// last of them, and the bytes that follow. A RUN that would go past `count`
/// gives only the pixels still wanted.
#[verifier::opaque]
pub open spec fn decode_ops(bs: Seq<u8>, count: nat, prev: Pixel, cache: Seq<Pixel>) -> Result<
    (Seq<Pixel>, Seq<Pixel>, Seq<u8>),
    DecodeError,
>
    decreases bs.len(),
{
    if count == 0 {
        Ok((seq![], cache, bs))
    } else if bs.len() == 0 {
        Err(DecodeError::TruncatedStream)
    } else if is_run_tag(bs[0]) {
        let run = (bs[0] % 64 + 1) as nat;
        let k = if run < count {
            run
        } else {
            count
        };
        prepend(
            Seq::new(k, |_i: int| prev),
            decode_ops(bs.subrange(1, bs.len() as int), (count - k) as nat, prev, cache),
        )
    } else if bs.len() < op_size(bs[0]) {
        Err(DecodeError::TruncatedStream)
    } else {
        let p = op_pixel(bs, prev, cache);
        let next_cache = if bs[0] < 0x40 {
            cache
        } else {
            cache.update(pixel_hash(p), p)
        };
        prepend(
            seq![p],
            decode_ops(
                bs.subrange(op_size(bs[0]), bs.len() as int),
                (count - 1) as nat,
                p,
                next_cache,
            ),
        )
    }
}

/// The first step of `decode_ops`: an empty request, a truncated stream, a
/// RUN, or one operation that gives one pixel.
pub proof fn lemma_decode_ops_step(bs: Seq<u8>, count: nat, prev: Pixel, cache: Seq<Pixel>)
    ensures
        count == 0 ==> decode_ops(bs, count, prev, cache) == Ok::<
            (Seq<Pixel>, Seq<Pixel>, Seq<u8>),
            DecodeError,
        >((seq![], cache, bs)),
        count > 0 && bs.len() == 0 ==> decode_ops(bs, count, prev, cache) == Err::<
            (Seq<Pixel>, Seq<Pixel>, Seq<u8>),
            DecodeError,
        >(DecodeError::TruncatedStream),
        count > 0 && bs.len() > 0 && is_run_tag(bs[0]) ==> {
            let run = (bs[0] % 64 + 1) as nat;
            let k = if run < count {
                run
            } else {
                count
            };
            decode_ops(bs, count, prev, cache) == prepend(
                Seq::new(k, |_i: int| prev),
                decode_ops(bs.subrange(1, bs.len() as int), (count - k) as nat, prev, cache),
            )
        },
        count > 0 && bs.len() > 0 && !is_run_tag(bs[0]) && bs.len() < op_size(bs[0])
            ==> decode_ops(bs, count, prev, cache) == Err::<
            (Seq<Pixel>, Seq<Pixel>, Seq<u8>),
            DecodeError,
        >(DecodeError::TruncatedStream),
        count > 0 && bs.len() > 0 && !is_run_tag(bs[0]) && bs.len() >= op_size(bs[0]) ==> {
            let p = op_pixel(bs, prev, cache);
            let next_cache = if bs[0] < 0x40 {
                cache
            } else {
                cache.update(pixel_hash(p), p)
            };
            decode_ops(bs, count, prev, cache) == prepend(
                seq![p],
                decode_ops(
                    bs.subrange(op_size(bs[0]), bs.len() as int),
                    (count - 1) as nat,
                    p,
                    next_cache,
                ),
            )
        },
{
    reveal(decode_ops);
}

/// The decoded image once the pixels are decoded: the end marker must follow.
pub open spec fn finish_decode(
    r: Result<(Seq<Pixel>, Seq<Pixel>, Seq<u8>), DecodeError>,
    width: u32,
    height: u32,
    chanels: u8,
    colorspace: u8,
) -> Result<Decoded, DecodeError> {
    match r {
        Err(e) => Err(e),
        Ok((pixels, cache, rest)) => {
            if rest.len() >= 8 && rest.subrange(0, 8) == end_marker() {
                Ok(Decoded { pixels, width, height, chanels, colorspace, cache })
            } else {
                Err(DecodeError::TruncatedStream)
            }
        },
    }
}

/// What `bytes` decodes to: a header (too short: truncated; wrong magic:
/// mismatch), then the operations for width times height pixels, then the
/// end marker.
pub open spec fn decode_spec(bytes: Seq<u8>) -> Result<Decoded, DecodeError> {
    if bytes.len() < 14 {
        Err(DecodeError::TruncatedStream)
    } else if bytes.subrange(0, 4) != magic() {
        Err(DecodeError::HeaderMismatch)
    } else {
        let width = be32_value(bytes[4], bytes[5], bytes[6], bytes[7]) as u32;
        let height = be32_value(bytes[8], bytes[9], bytes[10], bytes[11]) as u32;
        finish_decode(
            decode_ops(
                bytes.subrange(14, bytes.len() as int),
                (width * height) as nat,
                start_pixel(),
                empty_cache(),
            ),
            width,
            height,
            bytes[12],
            bytes[13],
        )
    }
}

/// Reads four bytes at `at`, most significant first.
fn read_be32(bytestream: &[u8], at: usize) -> (x: u32)
    requires
        at + 4 <= bytestream@.len(),
    ensures
        x == be32_value(bytestream@[at as int], bytestream@[at + 1], bytestream@[at + 2], bytestream@[at + 3]),
{
    (bytestream[at] as u32) * 0x100_0000 + (bytestream[at + 1] as u32) * 0x1_0000
        + (bytestream[at + 2] as u32) * 0x100 + (bytestream[at + 3] as u32)
}

/// `c + d - bias` modulo 256.
fn channel_add(c: u8, d: u16, bias: u16) -> (r: u8)
    requires
        d < 512,
        bias <= 256,
    ensures
        r == ((c + d - bias) % 256) as u8,
{
    ((c as u16 + d + (256 - bias)) % 256) as u8
}

/// The pixel of the operation at `j`, which is not a RUN and lies whole in
/// the stream.
fn decode_op_pixel(bytestream: &[u8], j: usize, prev: Pixel, array: &[Pixel; 64]) -> (p: Pixel)
    requires
        j < bytestream@.len(),
        !is_run_tag(bytestream@[j as int]),
        j + op_size(bytestream@[j as int]) <= bytestream@.len(),
    ensures
        p == op_pixel(bytestream@.subrange(j as int, bytestream@.len() as int), prev, array@),
{
    let ghost bs = bytestream@.subrange(j as int, bytestream@.len() as int);
    let b = bytestream[j];
    if b < 0x40 {
        array[b as usize]
    } else if b < 0x80 {
        Pixel::new(
            channel_add(prev.r, (b / 16 % 4) as u16, 2),
            channel_add(prev.g, (b / 4 % 4) as u16, 2),
            channel_add(prev.b, (b % 4) as u16, 2),
            prev.a,
        )
    } else if b < 0xC0 {
        let b1 = bytestream[j + 1];
        Pixel::new(
            channel_add(prev.r, (b % 64) as u16 + (b1 / 16) as u16, 40),
            channel_add(prev.g, (b % 64) as u16, 32),
            channel_add(prev.b, (b % 64) as u16 + (b1 % 16) as u16, 40),
            prev.a,
        )
    } else if b == 0xFE {
        Pixel::new(bytestream[j + 1], bytestream[j + 2], bytestream[j + 3], prev.a)
    } else {
        Pixel::new(bytestream[j + 1], bytestream[j + 2], bytestream[j + 3], bytestream[j + 4])
    }
}

pub proof fn lemma_prepend_empty(r: Result<(Seq<Pixel>, Seq<Pixel>, Seq<u8>), DecodeError>)
    ensures
        prepend(Seq::empty(), r) == r,
{
    if let Ok((px, cache, rest)) = r {
        assert(Seq::<Pixel>::empty() + px =~= px);
    }
}

pub proof fn lemma_prepend_prepend(
    a: Seq<Pixel>,
    b: Seq<Pixel>,
    r: Result<(Seq<Pixel>, Seq<Pixel>, Seq<u8>), DecodeError>,
)
    ensures
        prepend(a, prepend(b, r)) == prepend(a + b, r),
{
    if let Ok((px, cache, rest)) = r {
        assert(a + (b + px) =~= (a + b) + px);
    }
}

/// Decodes a QOI stream into its pixels, width, height, channel count and
/// colorspace tag; `array` is the color cache, and holds the final cache
/// when the call succeeds.
pub fn decode(bytestream: &[u8], array: &mut [Pixel; 64]) -> (r: Result<
    (Vec<Pixel>, u32, u32, u8, u8),
    DecodeError,
>)
    ensures
        match decode_spec(bytestream@) {
            Ok(d) => r matches Ok(t) && t.0@ == d.pixels && t.1 == d.width && t.2 == d.height
                && t.3 == d.chanels && t.4 == d.colorspace && final(array)@ == d.cache,
            Err(e) => r matches Err(e2) && e2 == e,
        },
{
    let n = bytestream.len();
    if n < 14 {
        return Err(DecodeError::TruncatedStream);
    }
    if bytestream[0] != 0x71 || bytestream[1] != 0x6F || bytestream[2] != 0x69 || bytestream[3]
        != 0x66 {
        assert(bytestream@.subrange(0, 4) != magic()) by {
            if bytestream@.subrange(0, 4) == magic() {
                assert(bytestream@.subrange(0, 4)[0] == bytestream@[0]);
                assert(bytestream@.subrange(0, 4)[1] == bytestream@[1]);
                assert(bytestream@.subrange(0, 4)[2] == bytestream@[2]);
                assert(bytestream@.subrange(0, 4)[3] == bytestream@[3]);
            }
        }
        return Err(DecodeError::HeaderMismatch);
    }
    assert(bytestream@.subrange(0, 4) =~= magic());
    let width = read_be32(bytestream, 4);
    let height = read_be32(bytestream, 8);
    let chanels = bytestream[12];
    let colorspace = bytestream[13];
    *array = [Pixel::new(0, 0, 0, 0); 64];
    assert(array@ =~= empty_cache());
    assert(width * height <= u32::MAX * u32::MAX) by (nonlinear_arith)
        requires
            width <= u32::MAX,
            height <= u32::MAX,
    ;
    let total: u64 = width as u64 * height as u64;
    let ghost body = bytestream@.subrange(14, n as int);
    let ghost whole = decode_ops(body, total as nat, start_pixel(), empty_cache());
    assert(decode_spec(bytestream@) == finish_decode(whole, width, height, chanels, colorspace));
    let mut pixel_stream: Vec<Pixel> = Vec::new();
    let mut j: usize = 14;
    let mut prev = Pixel::new(0, 0, 0, 255);
    proof {
        lemma_prepend_empty(whole);
        assert(pixel_stream@ =~= Seq::<Pixel>::empty());
    }
    while (pixel_stream.len() as u64) < total
        invariant
            n == bytestream@.len(),
            14 <= j <= n,
            pixel_stream@.len() <= total,
            decode_spec(bytestream@) == finish_decode(whole, width, height, chanels, colorspace),
            whole == prepend(
                pixel_stream@,
                decode_ops(
                    bytestream@.subrange(j as int, n as int),
                    (total - pixel_stream@.len()) as nat,
                    prev,
                    array@,
                ),
            ),
        decreases n - j,
    {
        let ghost bs = bytestream@.subrange(j as int, n as int);
        let ghost count = (total - pixel_stream@.len()) as nat;
        let ghost before = pixel_stream@;
        proof {
            lemma_decode_ops_step(bs, count, prev, array@);
        }
        if j >= n {
            return Err(DecodeError::TruncatedStream);
        }
        let b = bytestream[j];
        assert(bs[0] == b);
        if b >= 0xC0 && b < 0xFE {
            let run: u64 = (b % 64) as u64 + 1;
            let left: u64 = total - pixel_stream.len() as u64;
            let k: u64 = if run < left {
                run
            } else {
                left
            };
            let mut m: u64 = 0;
            while m < k
                invariant
                    m <= k,
                    pixel_stream@ == before + Seq::new(m as nat, |_i: int| prev),
                decreases k - m,
            {
                pixel_stream.push(prev);
                m += 1;
                assert(pixel_stream@ =~= before + Seq::new(m as nat, |_i: int| prev));
            }
            proof {
                assert(bs.subrange(1, bs.len() as int) =~= bytestream@.subrange(j + 1, n as int));
                lemma_prepend_prepend(
                    before,
                    Seq::new(k as nat, |_i: int| prev),
                    decode_ops(
                        bytestream@.subrange(j + 1, n as int),
                        (count - k) as nat,
                        prev,
                        array@,
                    ),
                );
            }
            j += 1;
        } else {
            let size: usize = if b == 0xFE {
                4
            } else if b == 0xFF {
                5
            } else if b >= 0x80 && b < 0xC0 {
                2
            } else {
                1
            };
            if n - j < size {
                return Err(DecodeError::TruncatedStream);
            }
            let p = decode_op_pixel(bytestream, j, prev, array);
            if b >= 0x40 {
                let h = p.hash();
                array[h as usize] = p;
            }
            pixel_stream.push(p);
            prev = p;
            proof {
                assert(bs.subrange(size as int, bs.len() as int) =~= bytestream@.subrange(
                    j + size,
                    n as int,
                ));
                assert(pixel_stream@ =~= before + seq![p]);
                lemma_prepend_prepend(
                    before,
                    seq![p],
                    decode_ops(
                        bytestream@.subrange(j + size, n as int),
                        (count - 1) as nat,
                        p,
                        array@,
                    ),
                );
            }
            j += size;
        }
    }
    let ghost rest = bytestream@.subrange(j as int, n as int);
    proof {
        lemma_decode_ops_step(rest, 0, prev, array@);
    }
    assert(pixel_stream@ + Seq::<Pixel>::empty() =~= pixel_stream@);
    if n - j < 8 {
        return Err(DecodeError::TruncatedStream);
    }
    if bytestream[j] != 0 || bytestream[j + 1] != 0 || bytestream[j + 2] != 0 || bytestream[j + 3]
        != 0 || bytestream[j + 4] != 0 || bytestream[j + 5] != 0 || bytestream[j + 6] != 0
        || bytestream[j + 7] != 1 {
        assert(rest.subrange(0, 8) != end_marker()) by {
            if rest.subrange(0, 8) == end_marker() {
                assert(rest.subrange(0, 8)[0] == bytestream@[j as int]);
                assert(rest.subrange(0, 8)[1] == bytestream@[j + 1]);
                assert(rest.subrange(0, 8)[2] == bytestream@[j + 2]);
                assert(rest.subrange(0, 8)[3] == bytestream@[j + 3]);
                assert(rest.subrange(0, 8)[4] == bytestream@[j + 4]);
                assert(rest.subrange(0, 8)[5] == bytestream@[j + 5]);
                assert(rest.subrange(0, 8)[6] == bytestream@[j + 6]);
                assert(rest.subrange(0, 8)[7] == bytestream@[j + 7]);
            }
        }
        return Err(DecodeError::TruncatedStream);
    }
    assert(rest.subrange(0, 8) =~= end_marker());
    Ok((pixel_stream, width, height, chanels, colorspace))
}

/// Decodes a QOI stream and writes its pixels as a binary PPM (P6) image;
/// alpha is dropped.
pub fn decode_to_p6_8_bit(bytestream: &[u8], array: &mut [Pixel; 64]) -> (r: Result<
    Vec<u8>,
    DecodeError,
>)
    ensures
        match decode_spec(bytestream@) {
            Ok(d) => r matches Ok(v) && v@ == p6_bytes(d.pixels, d.width, d.height)
                && final(array)@ == d.cache,
            Err(e) => r matches Err(e2) && e2 == e,
        },
{
    match decode(bytestream, array) {
        Ok((pixels, width, height, _chanels, _colorspace)) => Ok(
            write_p6(pixels.as_slice(), width, height),
        ),
        Err(e) => Err(e),
    }
}

} // verus!

use crate::types::{
    diff_byte, empty_cache, end_marker, header_bytes, luma_byte0, luma_byte1, pixel_hash,
    run_byte, signed_byte, start_pixel, DynamicPixel, Pixel, PixelDiff, QoiHeader, QoiOpDiff,
    QoiOpIndex, QoiOpLuma, QoiOpRGB, QoiOpRGBA, QoiOpRun, Range,
};
use crate::types16::Pixel16;
use vstd::prelude::*;

verus! {

/// Why an image could not be encoded.
#[derive(Clone, Copy, Debug, PartialEq, Eq, Structural)]
pub enum EncodeError {
    /// The image holds no pixel.
    EmptyInput,
    /// The image has 16-bit channels, which this codec does not encode.
    UnsupportedDepth,
}

/// The pixel that `s[i]` is compared against: the one before it.
pub open spec fn prev_at(s: Seq<Pixel>, i: int) -> Pixel {
    if i <= 0 {
        start_pixel()
    } else {
        s[i - 1]
    }
}

/// The color cache once the first `i` pixels of `s` have gone through: every
/// pixel that differs from the one before it is written to its hash slot.
pub open spec fn cache_at(s: Seq<Pixel>, i: int) -> Seq<Pixel>
    decreases i,
{
    if i <= 0 {
        empty_cache()
    } else {
        let c = cache_at(s, i - 1);
        let p = s[i - 1];
        if p == prev_at(s, i - 1) {
            c
        } else {
            c.update(pixel_hash(p), p)
        }
    }
}

/// How many pixels equal to `p` follow one another from index `j` on,
/// counting at most `budget` of them.
pub open spec fn run_more(s: Seq<Pixel>, j: int, p: Pixel, budget: nat) -> nat
    decreases budget,
{
    if budget > 0 && 0 <= j < s.len() && s[j] == p {
        1 + run_more(s, j + 1, p, (budget - 1) as nat)
    } else {
        0
    }
}

/// The length of the run that starts at `i`: `s[i]` and the pixels equal to it
/// that follow, 62 at most.
pub open spec fn run_length(s: Seq<Pixel>, i: int) -> nat {
    1 + run_more(s, i + 1, s[i], 61)
}

/// Whether `p` can be written as a DIFF operation after `prev`.
pub open spec fn fits_diff(p: Pixel, prev: Pixel) -> bool {
    &&& -2 <= signed_byte(p.r - prev.r) <= 1
    &&& -2 <= signed_byte(p.g - prev.g) <= 1
    &&& -2 <= signed_byte(p.b - prev.b) <= 1
    &&& p.a == prev.a
}

/// Whether `p` can be written as a LUMA operation after `prev`.
pub open spec fn fits_luma(p: Pixel, prev: Pixel) -> bool {
    &&& -32 <= signed_byte(p.g - prev.g) <= 31
    &&& -8 <= signed_byte((p.r - prev.r) - (p.g - prev.g)) <= 7
    &&& -8 <= signed_byte((p.b - prev.b) - (p.g - prev.g)) <= 7
    &&& p.a == prev.a
}

/// The operation that encodes `p`, which differs from `prev`, when the cache
/// is `cache`: INDEX on a cache hit, else DIFF, LUMA, RGB or RGBA, the first
/// that fits.
pub open spec fn pixel_chunk(p: Pixel, prev: Pixel, cache: Seq<Pixel>) -> Seq<u8> {
    let h = pixel_hash(p);
    if cache[h] == p {
        seq![h as u8]
    } else if fits_diff(p, prev) {
        seq![
            diff_byte(
                signed_byte(p.r - prev.r),
                signed_byte(p.g - prev.g),
                signed_byte(p.b - prev.b),
            ) as u8,
        ]
    } else if fits_luma(p, prev) {
        let dg = signed_byte(p.g - prev.g);
        seq![
            luma_byte0(dg) as u8,
            luma_byte1(
                signed_byte((p.r - prev.r) - (p.g - prev.g)),
                signed_byte((p.b - prev.b) - (p.g - prev.g)),
            ) as u8,
        ]
    } else if p.a == prev.a {
        seq![0xFEu8, p.r, p.g, p.b]
    } else {
        seq![0xFFu8, p.r, p.g, p.b, p.a]
    }
}

pub proof fn lemma_run_more(s: Seq<Pixel>, j: int, p: Pixel, budget: nat)
    requires
        0 <= j,
    ensures
        run_more(s, j, p, budget) <= budget,
        run_more(s, j, p, budget) > 0 ==> j + run_more(s, j, p, budget) <= s.len(),
        forall|m: int| j <= m < j + run_more(s, j, p, budget) ==> s[m] == p,
    decreases budget,
{
    if budget > 0 && 0 <= j < s.len() && s[j] == p {
        lemma_run_more(s, j + 1, p, (budget - 1) as nat);
    }
}

/// A run covers 1 to 62 pixels, all equal to its first, and stays in the image.
pub proof fn lemma_run_length(s: Seq<Pixel>, i: int)
    requires
        0 <= i < s.len(),
    ensures
        1 <= run_length(s, i) <= 62,
        i + run_length(s, i) <= s.len(),
        forall|m: int| i <= m < i + run_length(s, i) ==> s[m] == s[i],
{
    lemma_run_more(s, i + 1, s[i], 61);
}

/// The operations that encode the pixels of `s` from index `i` on.
#[verifier::opaque]
pub open spec fn encode_from(s: Seq<Pixel>, i: int) -> Seq<u8>
    decreases (if i < s.len() {
        s.len() - i
    } else {
        0
    }),
{
    if i < 0 || i >= s.len() {
        seq![]
    } else if s[i] == prev_at(s, i) {
        let k = run_length(s, i);
        seq![run_byte(k as int) as u8] + encode_from(s, i + k)
    } else {
        pixel_chunk(s[i], prev_at(s, i), cache_at(s, i)) + encode_from(s, i + 1)
    }
}

/// One step of `encode_from`: nothing past the end, a RUN where the pixel
/// repeats the one before it, else the pixel's own operation.
pub proof fn lemma_encode_from_step(s: Seq<Pixel>, i: int)
    ensures
        (i < 0 || i >= s.len()) ==> encode_from(s, i) == Seq::<u8>::empty(),
        0 <= i < s.len() && s[i] == prev_at(s, i) ==> encode_from(s, i) == seq![
            run_byte(run_length(s, i) as int) as u8,
        ] + encode_from(s, i + run_length(s, i)),
        0 <= i < s.len() && s[i] != prev_at(s, i) ==> encode_from(s, i) == pixel_chunk(
            s[i],
            prev_at(s, i),
            cache_at(s, i),
        ) + encode_from(s, i + 1),
{
    reveal(encode_from);
}

/// The whole stream for an image: header, operations, end marker.
pub open spec fn encode_spec(s: Seq<Pixel>, width: u32, height: u32) -> Seq<u8> {
    header_bytes(width, height, 3, 0) + encode_from(s, 0) + end_marker()
}

/// Pixels equal to the one before them leave the cache as it was.
pub proof fn lemma_cache_run(s: Seq<Pixel>, i: int, k: int)
    requires
        0 <= i,
        0 <= k,
        i + k <= s.len(),
        forall|m: int| i <= m < i + k ==> s[m] == prev_at(s, i),
    ensures
        cache_at(s, i + k) == cache_at(s, i),
        k > 0 ==> prev_at(s, i + k) == prev_at(s, i),
    decreases k,
{
    if k > 0 {
        lemma_cache_run(s, i, k - 1);
        if k > 1 {
            assert(prev_at(s, i + k - 1) == prev_at(s, i));
        }
        assert(s[i + k - 1] == prev_at(s, i + k - 1));
    }
}

/// Writes the operation for `pixel`, which differs from `prev`, and records
/// `pixel` in its cache slot.
fn encode_pixel(pixel: Pixel, prev: Pixel, array: &mut [Pixel; 64], output: &mut Vec<u8>)
    requires
        pixel != prev,
    ensures
        final(output)@ == old(output)@ + pixel_chunk(pixel, prev, old(array)@),
        final(array)@ == old(array)@.update(pixel_hash(pixel), pixel),
{
    let h = pixel.hash();
    if array[h as usize] == pixel {
        QoiOpIndex::new(h).append_self(output);
        assert(array@.update(h as int, pixel) =~= array@);
        return;
    }
    array[h as usize] = pixel;
    let diff: PixelDiff = PixelDiff::new(&pixel, &prev);
    if diff.belongs(
        Range::new(PixelDiff::new2(-2, -2, -2, 0), PixelDiff::new2(1, 1, 1, 0)).unwrap(),
    ) {
        let rgba: (i8, i8, i8, i8) = diff.extract();
        QoiOpDiff::new(rgba.0, rgba.1, rgba.2).append_self(output);
        return;
    }
    let diff_diff: PixelDiff = PixelDiff::new_diff(&pixel, &prev);
    if diff_diff.belongs(
        Range::new(PixelDiff::new2(-8, -32, -8, 0), PixelDiff::new2(7, 31, 7, 0)).unwrap(),
    ) {
        let extracted = diff_diff.extract();
        QoiOpLuma::new(extracted.1, extracted.0, extracted.2).append_self(output);
        return;
    }
    let values: (u8, u8, u8, u8) = pixel.extract();
    if diff_diff.is_alpha_zero() {
        QoiOpRGB::new(values.0, values.1, values.2).append_self(output);
        return;
    }
    QoiOpRGBA::new(values.0, values.1, values.2, values.3).append_self(output);
}

/// Encodes an image of 8-bit pixels, row by row, into a QOI stream; `array`
/// is the color cache, and holds the final cache when the call returns.
pub fn encode_(image: &[Pixel], array: &mut [Pixel; 64], width: u32, height: u32) -> (r: Result<
    Vec<u8>,
    EncodeError,
>)
    requires
        image@.len() == width * height,
    ensures
        image@.len() == 0 ==> r == Err::<Vec<u8>, EncodeError>(EncodeError::EmptyInput),
        image@.len() == 0 ==> final(array)@ == old(array)@,
        image@.len() > 0 ==> (r matches Ok(v) && v@ == encode_spec(image@, width, height)),
        image@.len() > 0 ==> final(array)@ == cache_at(image@, image@.len() as int),
{
    let n = image.len();
    if n == 0 {
        return Err(EncodeError::EmptyInput);
    }
    *array = [Pixel::new(0, 0, 0, 0); 64];
    assert(array@ =~= empty_cache());
    let capacity: usize = if n <= (usize::MAX - 22) / 5 {
        22 + 5 * n
    } else {
        n
    };
    let mut output: Vec<u8> = Vec::with_capacity(capacity);
    QoiHeader::new(width, height, 3, 0).append_self(&mut output);
    let ghost s = image@;
    let ghost target = header_bytes(width, height, 3, 0) + encode_from(s, 0);
    let mut prev = Pixel::new(0, 0, 0, 255);
    let mut i: usize = 0;
    while i < n
        invariant
            s == image@,
            n == s.len(),
            i <= n,
            prev == prev_at(s, i as int),
            array@ == cache_at(s, i as int),
            output@ + encode_from(s, i as int) == target,
        decreases n - i,
    {
        let pixel = image[i];
        proof {
            lemma_run_length(s, i as int);
            lemma_encode_from_step(s, i as int);
        }
        if pixel == prev {
            let mut run: u8 = 1;
            while i + (run as usize) < n && image[i + run as usize] == pixel && run < 62
                invariant
                    s == image@,
                    n == s.len(),
                    i < n,
                    pixel == s[i as int],
                    1 <= run <= 62,
                    i + run <= n,
                    run_length(s, i as int) == run + run_more(
                        s,
                        i + run,
                        pixel,
                        (62 - run) as nat,
                    ),
                decreases 62 - run,
            {
                run += 1;
            }
            proof {
                assert(run_length(s, i as int) == run);
                lemma_cache_run(s, i as int, run as int);
                let op = seq![run_byte(run as int) as u8];
                let more = encode_from(s, i + run);
                assert(output@ + (op + more) =~= output@.push(op[0]) + more);
            }
            QoiOpRun::new(run).append_self(&mut output);
            i += run as usize;
            continue;
        }
        let ghost old_out = output@;
        let ghost chunk = pixel_chunk(pixel, prev, array@);
        let ghost rest = encode_from(s, i + 1);
        proof {
            assert(encode_from(s, i as int) == chunk + rest);
        }
        encode_pixel(pixel, prev, array, &mut output);
        proof {
            assert(output@ + rest =~= old_out + (chunk + rest));
        }
        prev = pixel;
        i += 1;
    }
    proof {
        lemma_encode_from_step(s, n as int);
    }
    output.push(0);
    output.push(0);
    output.push(0);
    output.push(0);
    output.push(0);
    output.push(0);
    output.push(0);
    output.push(1);
    assert(output@ =~= encode_spec(s, width, height));
    Ok(output)
}

/// Whether every pixel of `s` has the channel depth of the first.
pub open spec fn same_depth(s: Seq<DynamicPixel>) -> bool {
    forall|i: int|
        0 <= i < s.len() ==> (#[trigger] s[i] is Pixel <==> s[0] is Pixel)
}

/// The 8-bit pixels of `s` (a 16-bit one, which callers rule out, reads as zero).
pub open spec fn eight_bit(s: Seq<DynamicPixel>) -> Seq<Pixel> {
    s.map_values(
        |d: DynamicPixel|
            match d {
                DynamicPixel::Pixel(p) => p,
                DynamicPixel::Pixel16(_) => Pixel { r: 0, g: 0, b: 0, a: 0 },
            },
    )
}

/// Encodes an image of either channel depth: 8-bit images as `encode_` does,
/// on a cache of its own that starts from zero pixels; 16-bit images are
/// refused. `array` is left as it is; for an 8-bit image it must hold 8-bit
/// pixels.
pub fn encode(
    image: &[DynamicPixel],
    array: &mut [DynamicPixel; 64],
    width: u32,
    height: u32,
    max_col_val: u32,
) -> (r: Result<Vec<u8>, EncodeError>)
    requires
        image@.len() == width * height,
        same_depth(image@),
        image@.len() > 0 && image@[0] is Pixel ==> forall|k: int|
            0 <= k < 64 ==> #[trigger] old(array)@[k] is Pixel,
    ensures
        final(array)@ == old(array)@,
        image@.len() == 0 ==> r == Err::<Vec<u8>, EncodeError>(EncodeError::EmptyInput),
        image@.len() > 0 && image@[0] is Pixel16 ==> r == Err::<Vec<u8>, EncodeError>(
            EncodeError::UnsupportedDepth,
        ),
        image@.len() > 0 && image@[0] is Pixel ==> (r matches Ok(v) && v@ == encode_spec(
            eight_bit(image@),
            width,
            height,
        )),
{
    if image.len() == 0 {
        return Err(EncodeError::EmptyInput);
    }
    match image[0] {
        DynamicPixel::Pixel(_) => {
            let mut image_: Vec<Pixel> = Vec::with_capacity(image.len());
            let mut i: usize = 0;
            while i < image.len()
                invariant
                    i <= image@.len(),
                    same_depth(image@),
                    image@[0] is Pixel,
                    image_@ == eight_bit(image@).take(i as int),
                decreases image@.len() - i,
            {
                assert(image@[i as int] is Pixel);
                image_.push(image[i].as_pixel().unwrap());
                i += 1;
                assert(image_@ =~= eight_bit(image@).take(i as int));
            }
            assert(image_@ =~= eight_bit(image@));
            let mut array_ = [Pixel::new(0, 0, 0, 0); 64];
            encode_(image_.as_slice(), &mut array_, width, height)
        },
        DynamicPixel::Pixel16(_) => {
            let mut image_: Vec<Pixel16> = Vec::with_capacity(image.len());
            let mut i: usize = 0;
            while i < image.len()
                invariant
                    i <= image@.len(),
                    same_depth(image@),
                    image@[0] is Pixel16,
                decreases image@.len() - i,
            {
                assert(image@[i as int] is Pixel16);
                image_.push(image[i].as_pixel16().unwrap());
                i += 1;
            }
            let array_ = [Pixel16::new(0, 0, 0, 0); 64];
            encode_16(image_.as_slice(), &array_, width, height, max_col_val)
        },
    }
}

/// Encoding of 16-bit images, which this codec does not support: it always
/// reports `UnsupportedDepth`.
pub fn encode_16(
    image: &[Pixel16],
    array: &[Pixel16; 64],
    width: u32,
    height: u32,
    max_col_val: u32,
) -> (r: Result<Vec<u8>, EncodeError>)
    ensures
        r == Err::<Vec<u8>, EncodeError>(EncodeError::UnsupportedDepth),
{
    Err(EncodeError::UnsupportedDepth)
}

} // verus!

use crate::decoder::{
    be32_value, decode_ops, decode_spec, is_run_tag, lemma_decode_ops_step, op_pixel, op_size,
    DecodeError, Decoded,
};
use crate::encoder::{
    cache_at, encode_from, encode_spec, fits_diff, fits_luma, lemma_cache_run,
    lemma_encode_from_step, lemma_run_length, pixel_chunk, prev_at, run_length,
};
use crate::types::{
    be32, diff_byte, empty_cache, end_marker, header_bytes, luma_byte0, luma_byte1, magic,
    pixel_hash, run_byte, signed_byte, start_pixel, Pixel,
};
use vstd::prelude::*;

verus! {

/// A cache stays 64 slots long.
pub proof fn lemma_cache_len(s: Seq<Pixel>, i: int)
    ensures
        cache_at(s, i).len() == 64,
    decreases i,
{
    if i > 0 {
        lemma_cache_len(s, i - 1);
    }
}

/// The three 2-bit fields of a DIFF byte read back.
pub proof fn lemma_diff_fields(x: int, y: int, z: int)
    requires
        0 <= x < 4,
        0 <= y < 4,
        0 <= z < 4,
    ensures
        ({
            let b = 0x40 + 16 * x + 4 * y + z;
            &&& 0x40 <= b < 0x80
            &&& b / 16 % 4 == x
            &&& b / 4 % 4 == y
            &&& b % 4 == z
        }),
{
}

/// The two 4-bit halves of the second LUMA byte read back.
pub proof fn lemma_luma_fields(x: int, z: int)
    requires
        0 <= x < 16,
        0 <= z < 16,
    ensures
        ({
            let b = 16 * x + z;
            &&& 0 <= b < 256
            &&& b / 16 == x
            &&& b % 16 == z
        }),
{
}

/// How many times 256 the signed byte of `x` lies below `x`.
pub open spec fn wraps(x: int) -> int {
    if x % 256 < 128 {
        x / 256
    } else {
        x / 256 + 1
    }
}

pub proof fn lemma_wraps(x: int)
    ensures
        signed_byte(x) == x - 256 * wraps(x),
        -128 <= signed_byte(x) < 128,
{
}

/// Adding back a wrapped difference restores the channel.
pub proof fn lemma_channel(c: u8, target: u8, field: int, bias: int, w: int)
    requires
        field - bias == target - c - 256 * w,
    ensures
        ((c + field - bias) % 256) as u8 == target,
{
    vstd::arithmetic::div_mod::lemma_mod_multiples_vanish(-w, target as int, 256);
    assert(c + field - bias == 256 * (-w) + target);
}

/// A DIFF byte is read back as the pixel it was written for.
pub proof fn lemma_diff_decodes(p: Pixel, prev: Pixel, cache: Seq<Pixel>, more: Seq<u8>)
    requires
        fits_diff(p, prev),
    ensures
        ({
            let bs = seq![
                diff_byte(
                    signed_byte(p.r - prev.r),
                    signed_byte(p.g - prev.g),
                    signed_byte(p.b - prev.b),
                ) as u8,
            ] + more;
            &&& 0x40 <= bs[0] < 0x80
            &&& op_pixel(bs, prev, cache) == p
        }),
{
    let dr = signed_byte(p.r - prev.r);
    let dg = signed_byte(p.g - prev.g);
    let db = signed_byte(p.b - prev.b);
    let bs = seq![diff_byte(dr, dg, db) as u8] + more;
    lemma_diff_fields(dr + 2, dg + 2, db + 2);
    let b = bs[0];
    assert(b as int == diff_byte(dr, dg, db));
    lemma_wraps(p.r - prev.r);
    lemma_wraps(p.g - prev.g);
    lemma_wraps(p.b - prev.b);
    lemma_channel(prev.r, p.r, (b / 16 % 4) as int, 2, wraps(p.r - prev.r));
    lemma_channel(prev.g, p.g, (b / 4 % 4) as int, 2, wraps(p.g - prev.g));
    lemma_channel(prev.b, p.b, (b % 4) as int, 2, wraps(p.b - prev.b));
}

/// A LUMA pair is read back as the pixel it was written for.
pub proof fn lemma_luma_decodes(p: Pixel, prev: Pixel, cache: Seq<Pixel>, more: Seq<u8>)
    requires
        fits_luma(p, prev),
    ensures
        ({
            let bs = seq![
                luma_byte0(signed_byte(p.g - prev.g)) as u8,
                luma_byte1(
                    signed_byte((p.r - prev.r) - (p.g - prev.g)),
                    signed_byte((p.b - prev.b) - (p.g - prev.g)),
                ) as u8,
            ] + more;
            &&& 0x80 <= bs[0] < 0xC0
            &&& op_pixel(bs, prev, cache) == p
        }),
{
    let dg = signed_byte(p.g - prev.g);
    let drg = signed_byte((p.r - prev.r) - (p.g - prev.g));
    let dbg = signed_byte((p.b - prev.b) - (p.g - prev.g));
    let bs = seq![luma_byte0(dg) as u8, luma_byte1(drg, dbg) as u8] + more;
    lemma_luma_fields(drg + 8, dbg + 8);
    let b0 = bs[0];
    let b1 = bs[1];
    assert(b0 as int == luma_byte0(dg));
    assert(b1 as int == luma_byte1(drg, dbg));
    assert(b0 % 64 == dg + 32);
    let wg = wraps(p.g - prev.g);
    let wr = wraps((p.r - prev.r) - (p.g - prev.g));
    let wb = wraps((p.b - prev.b) - (p.g - prev.g));
    lemma_wraps(p.g - prev.g);
    lemma_wraps((p.r - prev.r) - (p.g - prev.g));
    lemma_wraps((p.b - prev.b) - (p.g - prev.g));
    lemma_channel(prev.r, p.r, b0 % 64 - 32 + b1 / 16, 8, wg + wr);
    lemma_channel(prev.g, p.g, (b0 % 64) as int, 32, wg);
    lemma_channel(prev.b, p.b, b0 % 64 - 32 + b1 % 16, 8, wg + wb);
}

/// The operation that the encoder writes for a pixel is read back by the
/// decoder as that pixel, with the same change to the cache.
pub proof fn lemma_chunk_decodes(p: Pixel, prev: Pixel, cache: Seq<Pixel>, more: Seq<u8>)
    requires
        p != prev,
        cache.len() == 64,
    ensures
        ({
            let bs = pixel_chunk(p, prev, cache) + more;
            &&& !is_run_tag(bs[0])
            &&& op_size(bs[0]) == pixel_chunk(p, prev, cache).len()
            &&& op_pixel(bs, prev, cache) == p
            &&& (if bs[0] < 0x40 {
                cache
            } else {
                cache.update(pixel_hash(p), p)
            }) == cache.update(pixel_hash(p), p)
        }),
{
    let chunk = pixel_chunk(p, prev, cache);
    let bs = chunk + more;
    let h = pixel_hash(p);
    assert(bs[0] == chunk[0]);
    if cache[h] == p {
        assert(cache.update(h, p) =~= cache);
    } else if fits_diff(p, prev) {
        lemma_diff_decodes(p, prev, cache, more);
        assert(bs =~= chunk + more);
    } else if fits_luma(p, prev) {
        lemma_luma_decodes(p, prev, cache, more);
        assert(bs[1] == chunk[1]);
    } else if p.a == prev.a {
        assert(bs[1] == chunk[1] && bs[2] == chunk[2] && bs[3] == chunk[3]);
    } else {
        assert(bs[1] == chunk[1] && bs[2] == chunk[2] && bs[3] == chunk[3] && bs[4] == chunk[4]);
    }
}

/// Decoding `c` pixels from the operations that the encoder writes from
/// index `i` on (then `tail`), in the state the encoder had there, gives back
/// those pixels and the encoder's cache after them; when every remaining
/// pixel is asked for, exactly the operations are consumed.
pub open spec fn decodes_back(s: Seq<Pixel>, i: int, c: nat, tail: Seq<u8>) -> bool {
    decode_ops(encode_from(s, i) + tail, c, prev_at(s, i), cache_at(s, i)) matches Ok(
        (px, cache, rest),
    ) && px == s.subrange(i, i + c) && cache == cache_at(s, i + c) && (i + c == s.len() ==> rest
        == tail)
}

proof fn lemma_decodes_back_none(s: Seq<Pixel>, i: int, tail: Seq<u8>)
    requires
        0 <= i <= s.len(),
    ensures
        decodes_back(s, i, 0, tail),
{
    let bs = encode_from(s, i) + tail;
    lemma_encode_from_step(s, i);
    lemma_decode_ops_step(bs, 0, prev_at(s, i), cache_at(s, i));
    assert(s.subrange(i, i) =~= Seq::<Pixel>::empty());
    if i == s.len() {
        assert(bs =~= tail);
    }
}

/// Run boundedness: where the pixel at `i` repeats the one before it, the
/// encoder writes one RUN byte in `0xC0..=0xFD`, whose low six bits plus one
/// give the run's length (1 to 62), then goes on after the run; a longer run
/// of equal pixels is thus split over several RUN bytes.
pub proof fn lemma_run_op(s: Seq<Pixel>, i: int, tail: Seq<u8>)
    requires
        0 <= i < s.len(),
        s[i] == prev_at(s, i),
    ensures
        ({
            let bs = encode_from(s, i) + tail;
            let k = run_length(s, i);
            &&& bs.len() > 0
            &&& 0xC0 <= bs[0] <= 0xFD
            &&& is_run_tag(bs[0])
            &&& 1 <= k <= 62
            &&& bs[0] % 64 + 1 == k
            &&& bs.subrange(1, bs.len() as int) == encode_from(s, i + k) + tail
        }),
{
    let bs = encode_from(s, i) + tail;
    let k = run_length(s, i);
    lemma_run_length(s, i);
    lemma_encode_from_step(s, i);
    let more = encode_from(s, i + k) + tail;
    assert(bs =~= seq![run_byte(k as int) as u8] + more);
    assert(bs[0] as int == run_byte(k as int));
    assert(bs.subrange(1, bs.len() as int) =~= more);
}

proof fn lemma_decodes_back_run(s: Seq<Pixel>, i: int, c: nat, tail: Seq<u8>)
    requires
        0 <= i < s.len(),
        0 < c,
        i + c <= s.len(),
        s[i] == prev_at(s, i),
        run_length(s, i) < c ==> decodes_back(
            s,
            i + run_length(s, i),
            (c - run_length(s, i)) as nat,
            tail,
        ),
    ensures
        decodes_back(s, i, c, tail),
{
    let bs = encode_from(s, i) + tail;
    let prev = prev_at(s, i);
    let cache = cache_at(s, i);
    let k = run_length(s, i);
    lemma_run_length(s, i);
    lemma_run_op(s, i, tail);
    lemma_decode_ops_step(bs, c, prev, cache);
    let more = encode_from(s, i + k) + tail;
    if k < c {
        lemma_cache_run(s, i, k as int);
        assert(Seq::new(k, |_i: int| prev) =~= s.subrange(i, i + k));
        assert(s.subrange(i, i + k) + s.subrange(i + k, i + c) =~= s.subrange(i, i + c));
    } else {
        lemma_cache_run(s, i, c as int);
        lemma_decode_ops_step(more, 0, prev, cache);
        assert(Seq::new(c, |_i: int| prev) + Seq::<Pixel>::empty() =~= s.subrange(i, i + c));
        if i + c == s.len() {
            lemma_encode_from_step(s, i + k);
            assert(more =~= tail);
        }
    }
}

proof fn lemma_decodes_back_pixel(s: Seq<Pixel>, i: int, c: nat, tail: Seq<u8>)
    requires
        0 <= i < s.len(),
        0 < c,
        i + c <= s.len(),
        s[i] != prev_at(s, i),
        decodes_back(s, i + 1, (c - 1) as nat, tail),
    ensures
        decodes_back(s, i, c, tail),
{
    let bs = encode_from(s, i) + tail;
    let p = s[i];
    let prev = prev_at(s, i);
    let cache = cache_at(s, i);
    lemma_cache_len(s, i);
    lemma_encode_from_step(s, i);
    lemma_decode_ops_step(bs, c, prev, cache);
    let chunk = pixel_chunk(p, prev, cache);
    let more = encode_from(s, i + 1) + tail;
    lemma_chunk_decodes(p, prev, cache, more);
    assert(bs =~= chunk + more);
    assert(bs.subrange(chunk.len() as int, bs.len() as int) =~= more);
    assert(cache_at(s, i + 1) == cache.update(pixel_hash(p), p));
    assert(seq![p] + s.subrange(i + 1, i + c) =~= s.subrange(i, i + c));
}

pub proof fn lemma_decode_encoded(s: Seq<Pixel>, i: int, c: nat, tail: Seq<u8>)
    requires
        0 <= i <= s.len(),
        i + c <= s.len(),
    ensures
        decodes_back(s, i, c, tail),
    decreases s.len() - i,
{
    if c == 0 {
        lemma_decodes_back_none(s, i, tail);
    } else if s[i] == prev_at(s, i) {
        let k = run_length(s, i);
        lemma_run_length(s, i);
        if k < c {
            lemma_decode_encoded(s, i + k, (c - k) as nat, tail);
        }
        lemma_decodes_back_run(s, i, c, tail);
    } else {
        lemma_decode_encoded(s, i + 1, (c - 1) as nat, tail);
        lemma_decodes_back_pixel(s, i, c, tail);
    }
}

/// Four bytes written most significant first read back as the same number.
pub proof fn lemma_be32(x: u32)
    ensures
        be32_value(be32(x)[0], be32(x)[1], be32(x)[2], be32(x)[3]) == x,
{
    let b = be32(x);
    assert(b[0] == x / 0x100_0000);
    assert(b[1] == x / 0x1_0000 % 256);
    assert(b[2] == x / 0x100 % 256);
    assert(b[3] == x % 256);
    assert(x / 0x100_0000 * 0x100_0000 + (x / 0x1_0000 % 256) * 0x1_0000 + (x / 0x100 % 256) * 0x100
        + x % 256 == x) by (nonlinear_arith);
}

/// Round trip: the stream that the encoder writes for an image decodes to
/// the same pixels, the same width and height, the channel count 3 and the
/// colorspace 0 that the encoder writes, and the encoder's final cache.
pub proof fn lemma_round_trip(s: Seq<Pixel>, width: u32, height: u32)
    requires
        s.len() == width * height,
    ensures
        decode_spec(encode_spec(s, width, height)) == Ok::<Decoded, DecodeError>(
            Decoded {
                pixels: s,
                width,
                height,
                chanels: 3,
                colorspace: 0,
                cache: cache_at(s, s.len() as int),
            },
        ),
{
    let bytes = encode_spec(s, width, height);
    let ops = encode_from(s, 0);
    let header = header_bytes(width, height, 3, 0);
    assert(header.len() == 14);
    assert(bytes.subrange(0, 4) =~= magic());
    lemma_be32(width);
    lemma_be32(height);
    assert(bytes[4] == be32(width)[0] && bytes[5] == be32(width)[1] && bytes[6] == be32(width)[2]
        && bytes[7] == be32(width)[3]);
    assert(bytes[8] == be32(height)[0] && bytes[9] == be32(height)[1] && bytes[10] == be32(
        height,
    )[2] && bytes[11] == be32(height)[3]);
    assert(bytes[12] == 3 && bytes[13] == 0);
    assert(bytes.subrange(14, bytes.len() as int) =~= ops + end_marker());
    lemma_decode_encoded(s, 0, s.len(), end_marker());
    assert(s.subrange(0, s.len() as int) =~= s);
    assert(end_marker().subrange(0, 8) =~= end_marker());
}

/// The encoder's and the decoder's color caches agree: after the first `k`
/// pixels of an encoded image, the decoder holds exactly those pixels and the
/// cache that the encoder had after them.
pub proof fn lemma_cache_agreement(s: Seq<Pixel>, width: u32, height: u32, k: nat)
    requires
        s.len() == width * height,
        k <= s.len(),
    ensures
        decode_ops(
            encode_spec(s, width, height).subrange(14, encode_spec(s, width, height).len() as int),
            k,
            start_pixel(),
            empty_cache(),
        ) matches Ok((pixels, cache, _rest)) && pixels == s.subrange(0, k as int) && cache
            == cache_at(s, k as int),
{
    let bytes = encode_spec(s, width, height);
    assert(bytes.subrange(14, bytes.len() as int) =~= encode_from(s, 0) + end_marker());
    lemma_decode_encoded(s, 0, k, end_marker());
}

/// A pixel one step up in red, green and blue from the one before it, with
/// the same alpha, and not in the cache, is written as the DIFF byte `0x7F`.
pub proof fn lemma_diff_upper_edge(p: Pixel, prev: Pixel, cache: Seq<Pixel>)
    requires
        p.r == (prev.r + 1) % 256,
        p.g == (prev.g + 1) % 256,
        p.b == (prev.b + 1) % 256,
        p.a == prev.a,
        cache[pixel_hash(p)] != p,
    ensures
        pixel_chunk(p, prev, cache) == seq![0x7Fu8],
{
    lemma_wraps(p.r - prev.r);
    lemma_wraps(p.g - prev.g);
    lemma_wraps(p.b - prev.b);
    assert(signed_byte(p.r - prev.r) == 1);
    assert(signed_byte(p.g - prev.g) == 1);
    assert(signed_byte(p.b - prev.b) == 1);
}

/// A green step of 32 lies just past what LUMA holds: such a pixel, not in
/// the cache, is written as RGB when alpha is kept and as RGBA otherwise.
pub proof fn lemma_luma_green_edge(p: Pixel, prev: Pixel, cache: Seq<Pixel>)
    requires
        p.g == (prev.g + 32) % 256,
        cache[pixel_hash(p)] != p,
    ensures
        pixel_chunk(p, prev, cache) == (if p.a == prev.a {
            seq![0xFEu8, p.r, p.g, p.b]
        } else {
            seq![0xFFu8, p.r, p.g, p.b, p.a]
        }),
{
    lemma_wraps(p.g - prev.g);
    assert(signed_byte(p.g - prev.g) == 32);
}

} // verus!

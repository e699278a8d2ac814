use crate::encoder::{
    cache_at, encode_from, encode_spec, lemma_cache_run, lemma_encode_from_step, lemma_run_length,
    pixel_chunk, prev_at, run_length,
};
use crate::theorems::{lemma_be32, lemma_cache_len};
use crate::types::{be32, end_marker, header_bytes, pixel_hash, run_byte, Pixel};
use vstd::prelude::*;

verus! {

/// How many zero bytes stand right before index `i` of `bs`.
pub open spec fn zeros_before(bs: Seq<u8>, i: int) -> nat
    decreases i,
{
    if i <= 0 || bs[i - 1] != 0 {
        0
    } else {
        1 + zeros_before(bs, i - 1)
    }
}

/// No index of `bs` has more than `bound` zero bytes right before it.
pub open spec fn zero_runs_at_most(bs: Seq<u8>, bound: nat) -> bool {
    forall|i: int| 0 <= i <= bs.len() ==> #[trigger] zeros_before(bs, i) <= bound
}

proof fn lemma_zeros_prefix(a: Seq<u8>, b: Seq<u8>, i: int)
    requires
        0 <= i <= a.len(),
    ensures
        zeros_before(a + b, i) == zeros_before(a, i),
    decreases i,
{
    if i > 0 {
        assert((a + b)[i - 1] == a[i - 1]);
        lemma_zeros_prefix(a, b, i - 1);
    }
}

/// A nonzero byte at `m` stops the zeros before any later index.
proof fn lemma_zeros_stop(bs: Seq<u8>, i: int, m: int)
    requires
        0 <= m < i <= bs.len(),
        bs[m] != 0,
    ensures
        zeros_before(bs, i) <= i - m - 1,
    decreases i,
{
    if i - 1 > m && bs[i - 1] == 0 {
        lemma_zeros_stop(bs, i - 1, m);
    }
}

proof fn lemma_zeros_le(bs: Seq<u8>, i: int)
    requires
        0 <= i,
    ensures
        zeros_before(bs, i) <= i,
    decreases i,
{
    if i > 0 {
        lemma_zeros_le(bs, i - 1);
    }
}

/// Appending a chunk whose first byte is nonzero leaves fewer zeros before
/// each of its indices than there are bytes of it so far.
proof fn lemma_append_nonzero(a: Seq<u8>, c: Seq<u8>, bound: nat)
    requires
        c.len() > 0,
        c[0] != 0,
        c.len() <= bound + 1,
        zero_runs_at_most(a, bound),
    ensures
        zero_runs_at_most(a + c, bound),
        zeros_before(a + c, (a + c).len() as int) < c.len(),
{
    let ac = a + c;
    assert(ac[a.len() as int] == c[0]);
    assert forall|i: int| 0 <= i <= ac.len() implies #[trigger] zeros_before(ac, i) <= bound by {
        if i <= a.len() {
            lemma_zeros_prefix(a, c, i);
        } else {
            lemma_zeros_stop(ac, i, a.len() as int);
        }
    }
    lemma_zeros_stop(ac, ac.len() as int, a.len() as int);
}

proof fn lemma_append_zero(a: Seq<u8>, bound: nat)
    requires
        zero_runs_at_most(a, bound),
        zeros_before(a, a.len() as int) < bound,
    ensures
        zero_runs_at_most(a + seq![0u8], bound),
        zeros_before(a + seq![0u8], a.len() as int + 1) == zeros_before(a, a.len() as int) + 1,
{
    let ac = a + seq![0u8];
    assert(ac[a.len() as int] == 0);
    lemma_zeros_prefix(a, seq![0u8], a.len() as int);
    assert forall|i: int| 0 <= i <= ac.len() implies #[trigger] zeros_before(ac, i) <= bound by {
        if i <= a.len() {
            lemma_zeros_prefix(a, seq![0u8], i);
        }
    }
}

/// Every operation but INDEX 0 opens with a nonzero byte and is at most five
/// bytes long; INDEX 0 is the pixel in slot 0 of the cache.
proof fn lemma_chunk_shape(p: Pixel, prev: Pixel, cache: Seq<Pixel>)
    requires
        cache.len() == 64,
    ensures
        ({
            let c = pixel_chunk(p, prev, cache);
            &&& 1 <= c.len() <= 5
            &&& c[0] == 0 ==> c.len() == 1 && cache[0] == p
        }),
{
}

/// The operations from index `i` on, written after `acc`, make no run of
/// more than six zero bytes, when `acc` has none and ends in at most four
/// zeros, or five where the pixel in slot 0 of the cache is the previous one.
proof fn lemma_ops_zero_runs(s: Seq<Pixel>, i: int, acc: Seq<u8>)
    requires
        0 <= i <= s.len(),
        zero_runs_at_most(acc, 6),
        zeros_before(acc, acc.len() as int) <= 4 || (zeros_before(acc, acc.len() as int) <= 5
            && cache_at(s, i)[0] == prev_at(s, i)),
    ensures
        zero_runs_at_most(acc + encode_from(s, i), 6),
    decreases s.len() - i,
{
    lemma_encode_from_step(s, i);
    if i >= s.len() {
        assert(acc + encode_from(s, i) =~= acc);
    } else if s[i] == prev_at(s, i) {
        let k = run_length(s, i);
        lemma_run_length(s, i);
        let c = seq![run_byte(k as int) as u8];
        lemma_append_nonzero(acc, c, 6);
        lemma_cache_run(s, i, k as int);
        lemma_ops_zero_runs(s, i + k, acc + c);
        assert(acc + encode_from(s, i) =~= (acc + c) + encode_from(s, i + k));
    } else {
        let p = s[i];
        let prev = prev_at(s, i);
        let cache = cache_at(s, i);
        lemma_cache_len(s, i);
        let c = pixel_chunk(p, prev, cache);
        lemma_chunk_shape(p, prev, cache);
        assert(cache_at(s, i + 1) == cache.update(pixel_hash(p), p));
        if c[0] == 0 {
            assert(c =~= seq![0u8]);
            lemma_append_zero(acc, 6);
            assert(cache_at(s, i + 1)[0] == p);
        } else {
            lemma_append_nonzero(acc, c, 6);
        }
        lemma_ops_zero_runs(s, i + 1, acc + c);
        assert(acc + encode_from(s, i) =~= (acc + c) + encode_from(s, i + 1));
    }
}

/// `n` zero bytes before index `i` count as at least `n` zeros.
proof fn lemma_zeros_at_least(bs: Seq<u8>, i: int, n: int)
    requires
        0 <= n <= i <= bs.len(),
        forall|j: int| i - n <= j < i ==> bs[j] == 0,
    ensures
        zeros_before(bs, i) >= n,
    decreases n,
{
    if n > 0 {
        lemma_zeros_at_least(bs, i - 1, n - 1);
    }
}

/// Some byte of a nonzero number is nonzero.
proof fn lemma_be32_nonzero(x: u32)
    requires
        x != 0,
    ensures
        be32(x)[0] != 0 || be32(x)[1] != 0 || be32(x)[2] != 0 || be32(x)[3] != 0,
{
    lemma_be32(x);
}

/// A header with nonzero width and height has no run of more than six zero
/// bytes, and ends in one zero byte.
proof fn lemma_header_zero_runs(width: u32, height: u32)
    requires
        width != 0,
        height != 0,
    ensures
        zero_runs_at_most(header_bytes(width, height, 3, 0), 6),
        zeros_before(header_bytes(width, height, 3, 0), 14) <= 4,
{
    let hd = header_bytes(width, height, 3, 0);
    assert(hd.len() == 14);
    assert(hd[3] == 0x66u8);
    assert(hd[12] == 3u8);
    lemma_be32_nonzero(width);
    lemma_be32_nonzero(height);
    assert(hd[4] == be32(width)[0] && hd[5] == be32(width)[1] && hd[6] == be32(width)[2] && hd[7]
        == be32(width)[3]);
    assert(hd[8] == be32(height)[0] && hd[9] == be32(height)[1] && hd[10] == be32(height)[2]
        && hd[11] == be32(height)[3]);
    assert forall|i: int| 0 <= i <= hd.len() implies #[trigger] zeros_before(hd, i) <= 6 by {
        if i <= 6 {
            lemma_zeros_le(hd, i);
        } else if i <= 10 {
            lemma_zeros_stop(hd, i, 3);
        } else if i == 11 {
            if hd[7] != 0 {
                lemma_zeros_stop(hd, i, 7);
            } else if hd[6] != 0 {
                lemma_zeros_stop(hd, i, 6);
            } else if hd[5] != 0 {
                lemma_zeros_stop(hd, i, 5);
            } else {
                lemma_zeros_stop(hd, i, 4);
            }
        } else if i == 12 {
            if hd[11] != 0 {
                lemma_zeros_stop(hd, i, 11);
            } else if hd[10] != 0 {
                lemma_zeros_stop(hd, i, 10);
            } else if hd[9] != 0 {
                lemma_zeros_stop(hd, i, 9);
            } else {
                lemma_zeros_stop(hd, i, 8);
            }
        } else {
            lemma_zeros_stop(hd, i, 12);
        }
    }
    lemma_zeros_stop(hd, 14, 12);
}

/// End marker exclusivity: in the stream that the encoder writes for an
/// image of at least one pixel, the eight bytes of the end marker occur only
/// as its last eight bytes.
pub proof fn lemma_end_marker_only_at_end(s: Seq<Pixel>, width: u32, height: u32, k: int)
    requires
        s.len() == width * height,
        s.len() > 0,
        0 <= k < encode_spec(s, width, height).len() - 8,
    ensures
        encode_spec(s, width, height).subrange(k, k + 8) != end_marker(),
{
    let bytes = encode_spec(s, width, height);
    let hd = header_bytes(width, height, 3, 0);
    let body = hd + encode_from(s, 0);
    assert(width != 0 && height != 0) by {
        if width == 0 || height == 0 {
            assert(width * height == 0);
        }
    }
    lemma_header_zero_runs(width, height);
    lemma_ops_zero_runs(s, 0, hd);
    assert(bytes =~= body + end_marker());
    if bytes.subrange(k, k + 8) == end_marker() {
        assert(bytes[k + 7] == bytes.subrange(k, k + 8)[7]);
        if k + 7 >= body.len() {
            assert(bytes[k + 7] == end_marker()[k + 7 - body.len()]);
        } else {
            assert forall|j: int| k <= j < k + 7 implies bytes[j] == 0 by {
                assert(bytes[j] == bytes.subrange(k, k + 8)[j - k]);
            }
            lemma_zeros_at_least(bytes, k + 7, 7);
            lemma_zeros_prefix(body, end_marker(), k + 7);
            assert(zeros_before(body, k + 7) <= 6);
        }
    }
}

} // verus!

use qoi::decoder::{decode, decode_to_p6_8_bit, DecodeError};
use qoi::encoder::{encode, encode_, encode_16, EncodeError};
use qoi::types::{DynamicPixel, Pixel};
use qoi::types16::Pixel16;

const MARKER: [u8; 8] = [0, 0, 0, 0, 0, 0, 0, 1];

fn header(width: u32, height: u32) -> Vec<u8> {
    let mut h = vec![0x71, 0x6F, 0x69, 0x66];
    h.extend_from_slice(&width.to_be_bytes());
    h.extend_from_slice(&height.to_be_bytes());
    h.push(3);
    h.push(0);
    h
}

fn px(r: u8, g: u8, b: u8, a: u8) -> Pixel {
    Pixel::new(r, g, b, a)
}

fn encode_image(image: &[Pixel], width: u32, height: u32) -> Vec<u8> {
    let mut cache = [Pixel::default(); 64];
    encode_(image, &mut cache, width, height).unwrap()
}

fn ops_of(bytes: &[u8]) -> Vec<u8> {
    bytes[14..bytes.len() - 8].to_vec()
}

fn round_trip(image: &[Pixel], width: u32, height: u32) {
    let bytes = encode_image(image, width, height);
    let mut cache = [Pixel::default(); 64];
    let (pixels, w, h, ch, cs) = decode(&bytes, &mut cache).unwrap();
    assert_eq!(pixels, image.to_vec());
    assert_eq!((w, h, ch, cs), (width, height, 3, 0));
}

/// A deterministic stream of pseudo-random pixels.
fn noise(n: usize, seed: u32, alpha_varies: bool) -> Vec<Pixel> {
    let mut x = seed;
    let mut out = Vec::new();
    for _ in 0..n {
        x = x.wrapping_mul(1_103_515_245).wrapping_add(12_345);
        let v = x >> 8;
        let small = (x >> 28) % 4 == 0;
        let base = out.last().copied().unwrap_or(px(0, 0, 0, 255));
        let p = if small {
            px(
                base.r.wrapping_add((v % 3) as u8),
                base.g.wrapping_add((v / 3 % 3) as u8),
                base.b.wrapping_sub((v / 9 % 2) as u8),
                base.a,
            )
        } else if (x >> 24) % 5 == 0 {
            base
        } else {
            px(v as u8, (v >> 8) as u8, (v >> 16) as u8, if alpha_varies { (v >> 4) as u8 } else { 255 })
        };
        out.push(p);
    }
    out
}

#[test]
fn two_equal_pixels_give_luma_then_run() {
    let image = [px(10, 10, 10, 255), px(10, 10, 10, 255)];
    let bytes = encode_image(&image, 2, 1);
    let mut expected = header(2, 1);
    expected.extend_from_slice(&[0xAA, 0x88, 0xC0]);
    expected.extend_from_slice(&MARKER);
    assert_eq!(bytes, expected);
    let runs: Vec<u8> = ops_of(&bytes).into_iter().filter(|b| (0xC0..0xFE).contains(b)).collect();
    assert_eq!(runs, vec![0xC0]);
    round_trip(&image, 2, 1);
}

#[test]
fn red_wraparound_is_a_diff() {
    let image = [px(0, 0, 0, 255), px(255, 0, 0, 255)];
    let bytes = encode_image(&image, 2, 1);
    assert_eq!(ops_of(&bytes), vec![0xC0, 0x5A]);
    let mut cache = [Pixel::default(); 64];
    let (pixels, _, _, _, _) = decode(&bytes, &mut cache).unwrap();
    assert_eq!(pixels[1], px(255, 0, 0, 255));
}

#[test]
fn large_delta_gives_rgb() {
    let image = [px(0, 0, 0, 255), px(128, 0, 0, 255)];
    let bytes = encode_image(&image, 2, 1);
    assert_eq!(ops_of(&bytes), vec![0xC0, 0xFE, 128, 0, 0]);
    round_trip(&image, 2, 1);
}

#[test]
fn alpha_change_gives_rgba() {
    let image = [px(1, 2, 3, 255), px(1, 2, 3, 0)];
    let bytes = encode_image(&image, 2, 1);
    assert_eq!(ops_of(&bytes), vec![0xA2, 0x79, 0xFF, 1, 2, 3, 0]);
    round_trip(&image, 2, 1);
}

#[test]
fn long_run_is_split_and_decodes_whole() {
    let image = vec![px(5, 5, 5, 255); 200];
    let bytes = encode_image(&image, 20, 10);
    let ops = ops_of(&bytes);
    let runs: Vec<u8> = ops.iter().copied().filter(|b| (0xC0..0xFE).contains(b)).collect();
    assert_eq!(runs, vec![0xFD, 0xFD, 0xFD, 0xCC]);
    let mut cache = [Pixel::default(); 64];
    let (pixels, _, _, _, _) = decode(&bytes, &mut cache).unwrap();
    assert_eq!(pixels.len(), 200);
    assert!(pixels.iter().all(|p| *p == px(5, 5, 5, 255)));
}

#[test]
fn run_of_the_start_pixel() {
    let image = vec![px(0, 0, 0, 255); 62];
    let bytes = encode_image(&image, 62, 1);
    assert_eq!(ops_of(&bytes), vec![0xFD]);
    round_trip(&image, 62, 1);
}

#[test]
fn diff_upper_bound() {
    let image = [px(1, 1, 1, 255)];
    assert_eq!(ops_of(&encode_image(&image, 1, 1)), vec![0x7F]);
    let image = [px(10, 20, 30, 7), px(11, 21, 31, 7)];
    let ops = ops_of(&encode_image(&image, 2, 1));
    assert_eq!(ops[ops.len() - 1], 0x7F);
}

#[test]
fn diff_lower_bound() {
    let image = [px(254, 254, 254, 255)];
    assert_eq!(ops_of(&encode_image(&image, 1, 1)), vec![0x40]);
}

#[test]
fn green_step_past_luma_range() {
    let image = [px(0, 32, 0, 255)];
    assert_eq!(ops_of(&encode_image(&image, 1, 1)), vec![0xFE, 0, 32, 0]);
    let image = [px(0, 32, 0, 9)];
    assert_eq!(ops_of(&encode_image(&image, 1, 1)), vec![0xFF, 0, 32, 0, 9]);
}

#[test]
fn luma_edges() {
    let image = [px(31, 31, 31, 255)];
    assert_eq!(ops_of(&encode_image(&image, 1, 1)), vec![0xBF, 0x88]);
    let image = [px(231, 224, 231, 255)];
    assert_eq!(ops_of(&encode_image(&image, 1, 1)), vec![0x80, 0xFF]);
}

#[test]
fn cache_hit_gives_index() {
    let a = px(100, 50, 25, 255);
    let b = px(0, 200, 90, 255);
    let image = [a, b, a];
    let ops = ops_of(&encode_image(&image, 3, 1));
    assert_eq!(ops[ops.len() - 1], a.hash());
    assert_eq!(a.hash(), ((100 * 3 + 50 * 5 + 25 * 7 + 255 * 11) % 64) as u8);
    round_trip(&image, 3, 1);
}

#[test]
fn zero_pixel_first_is_index_zero() {
    let image = [px(0, 0, 0, 0)];
    assert_eq!(ops_of(&encode_image(&image, 1, 1)), vec![0x00]);
    round_trip(&image, 1, 1);
}

#[test]
fn round_trip_opaque_noise() {
    let image = noise(600, 7, false);
    round_trip(&image, 30, 20);
}

#[test]
fn round_trip_alpha_noise() {
    let image = noise(777, 99, true);
    round_trip(&image, 7, 111);
}

#[test]
fn round_trip_gradient() {
    let mut image = Vec::new();
    for y in 0..32u32 {
        for x in 0..48u32 {
            image.push(px((x * 5) as u8, (y * 7) as u8, ((x + y) * 3) as u8, 255));
        }
    }
    round_trip(&image, 48, 32);
}

#[test]
fn header_carries_dimensions() {
    let image = vec![px(9, 8, 7, 6); 3 * 70000];
    let bytes = encode_image(&image, 70000, 3);
    assert_eq!(bytes[..14].to_vec(), header(70000, 3));
    let mut cache = [Pixel::default(); 64];
    let (_, w, h, ch, cs) = decode(&bytes, &mut cache).unwrap();
    assert_eq!((w, h, ch, cs), (70000, 3, 3, 0));
}

#[test]
fn caches_agree_after_round_trip() {
    let image = noise(500, 3, true);
    let mut enc_cache = [px(1, 1, 1, 1); 64];
    let bytes = encode_(&image, &mut enc_cache, 25, 20).unwrap();
    let mut dec_cache = [px(2, 2, 2, 2); 64];
    decode(&bytes, &mut dec_cache).unwrap();
    assert!(enc_cache == dec_cache);
    assert!(enc_cache.iter().any(|p| *p != Pixel::default()));
}

#[test]
fn end_marker_only_at_end() {
    let mut images = vec![
        noise(400, 1, true),
        noise(400, 2, false),
        vec![px(0, 0, 0, 0), px(0, 0, 0, 1), px(0, 0, 0, 0), px(0, 0, 0, 1)],
        vec![px(0, 0, 0, 0); 5],
    ];
    let mut zeros = Vec::new();
    for k in 0..64u8 {
        zeros.push(px(0, 0, k, 0));
        zeros.push(px(0, 0, 0, 0));
    }
    images.push(zeros);
    for image in images {
        let n = image.len() as u32;
        let bytes = encode_image(&image, n, 1);
        let found: Vec<usize> = (0..=bytes.len() - 8).filter(|&k| bytes[k..k + 8] == MARKER).collect();
        assert_eq!(found, vec![bytes.len() - 8]);
    }
}

#[test]
fn empty_image_is_refused() {
    let mut cache = [px(4, 4, 4, 4); 64];
    assert_eq!(encode_(&[], &mut cache, 0, 0), Err(EncodeError::EmptyInput));
    assert!(cache.iter().all(|p| *p == px(4, 4, 4, 4)));
    let mut dcache = [DynamicPixel::Pixel(Pixel::default()); 64];
    assert_eq!(encode(&[], &mut dcache, 0, 5, 255), Err(EncodeError::EmptyInput));
}

#[test]
fn dynamic_encode_matches_eight_bit() {
    let image = noise(60, 5, true);
    let dynamic: Vec<DynamicPixel> = image.iter().map(|p| DynamicPixel::Pixel(*p)).collect();
    let mut dcache = [DynamicPixel::Pixel(px(7, 7, 7, 7)); 64];
    let bytes = encode(&dynamic, &mut dcache, 6, 10, 255).unwrap();
    let mut cache = [Pixel::default(); 64];
    assert_eq!(bytes, encode_(&image, &mut cache, 6, 10).unwrap());
    assert!(dcache.iter().all(|p| p.as_pixel() == Ok(px(7, 7, 7, 7))));
}

#[test]
fn dynamic_encode_leaves_array_alone() {
    let image = [DynamicPixel::Pixel(px(1, 1, 1, 255))];
    let mut dcache = [DynamicPixel::Pixel(Pixel::default()); 64];
    encode(&image, &mut dcache, 1, 1, 255).unwrap();
    assert!(dcache.iter().all(|p| p.as_pixel() == Ok(Pixel::default())));
    let mut dcache = [DynamicPixel::Pixel(px(9, 9, 9, 9)); 64];
    assert_eq!(encode(&[], &mut dcache, 0, 0, 255), Err(EncodeError::EmptyInput));
    assert!(dcache.iter().all(|p| p.as_pixel() == Ok(px(9, 9, 9, 9))));
}

#[test]
fn sixteen_bit_is_unsupported() {
    let image = [DynamicPixel::Pixel16(Pixel16::new(1, 2, 3, 4))];
    let mut dcache = [DynamicPixel::Pixel(Pixel::default()); 64];
    assert_eq!(encode(&image, &mut dcache, 1, 1, 65535), Err(EncodeError::UnsupportedDepth));
    let cache = [Pixel16::default(); 64];
    assert_eq!(encode_16(&[Pixel16::new(1, 2, 3, 4)], &cache, 1, 1, 65535), Err(EncodeError::UnsupportedDepth));
}

#[test]
fn decode_rejects_short_input() {
    let mut cache = [Pixel::default(); 64];
    assert_eq!(decode(&[0x71, 0x6F, 0x69], &mut cache), Err(DecodeError::TruncatedStream));
}

#[test]
fn decode_rejects_bad_magic() {
    let mut bytes = encode_image(&[px(1, 2, 3, 4)], 1, 1);
    bytes[0] = b'Q';
    let mut cache = [Pixel::default(); 64];
    assert_eq!(decode(&bytes, &mut cache), Err(DecodeError::HeaderMismatch));
}

#[test]
fn decode_rejects_missing_pixels() {
    let bytes = encode_image(&[px(1, 2, 3, 4), px(9, 9, 9, 9)], 2, 1);
    let mut cache = [Pixel::default(); 64];
    let cut = &bytes[..bytes.len() - 8 - 2];
    assert_eq!(decode(cut, &mut cache), Err(DecodeError::TruncatedStream));
    let mut cut_op = header(1, 1);
    cut_op.extend_from_slice(&[0xFF, 1, 2]);
    assert_eq!(decode(&cut_op, &mut cache), Err(DecodeError::TruncatedStream));
}

#[test]
fn decode_rejects_missing_marker() {
    let bytes = encode_image(&[px(1, 2, 3, 4)], 1, 1);
    let mut cache = [Pixel::default(); 64];
    assert_eq!(decode(&bytes[..bytes.len() - 1], &mut cache), Err(DecodeError::TruncatedStream));
    let mut wrong = bytes.clone();
    let last = wrong.len() - 1;
    wrong[last] = 2;
    assert_eq!(decode(&wrong, &mut cache), Err(DecodeError::TruncatedStream));
}

#[test]
fn decode_run_stops_at_pixel_count() {
    let mut bytes = header(3, 1);
    bytes.push(0xC9);
    bytes.extend_from_slice(&MARKER);
    let mut cache = [Pixel::default(); 64];
    let (pixels, _, _, _, _) = decode(&bytes, &mut cache).unwrap();
    assert_eq!(pixels, vec![px(0, 0, 0, 255); 3]);
}

#[test]
fn decode_each_operation() {
    let mut bytes = header(6, 1);
    bytes.extend_from_slice(&[0xFE, 10, 20, 30]);
    bytes.extend_from_slice(&[0x7F]);
    bytes.extend_from_slice(&[0x80 + 32 + 4, 0x8A]);
    bytes.extend_from_slice(&[0xFF, 1, 2, 3, 4]);
    bytes.push(px(10, 20, 30, 255).hash());
    bytes.push(0xC0);
    bytes.extend_from_slice(&MARKER);
    let mut cache = [Pixel::default(); 64];
    let (pixels, _, _, _, _) = decode(&bytes, &mut cache).unwrap();
    assert_eq!(
        pixels,
        vec![
            px(10, 20, 30, 255),
            px(11, 21, 31, 255),
            px(15, 25, 37, 255),
            px(1, 2, 3, 4),
            px(10, 20, 30, 255),
            px(10, 20, 30, 255),
        ]
    );
}

#[test]
fn decode_to_p6_writes_rgb() {
    let image = [px(1, 2, 3, 4), px(250, 251, 252, 253)];
    let bytes = encode_image(&image, 2, 1);
    let mut cache = [Pixel::default(); 64];
    let out = decode_to_p6_8_bit(&bytes, &mut cache).unwrap();
    let mut expected = b"P6\n2 1\n255\n".to_vec();
    expected.extend_from_slice(&[1, 2, 3, 250, 251, 252]);
    assert_eq!(out, expected);
    assert_eq!(decode_to_p6_8_bit(&bytes[..5], &mut cache), Err(DecodeError::TruncatedStream));
}

#[test]
fn decode_to_p6_large_dimensions() {
    let image = vec![px(0, 0, 0, 255); 1234];
    let bytes = encode_image(&image, 1234, 1);
    let mut cache = [Pixel::default(); 64];
    let out = decode_to_p6_8_bit(&bytes, &mut cache).unwrap();
    assert!(out.starts_with(b"P6\n1234 1\n255\n"));
    assert_eq!(out.len(), 14 + 3 * 1234);
}

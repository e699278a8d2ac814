use qoi::encoder::{encode, EncodeError};
use qoi::ppm::bytestream_to_pixelstream;
use qoi::types::{DynamicPixel, Pixel};
use qoi::types16::Pixel16;

#[test]
fn reads_eight_bit_p6() {
    let mut bytes = b"P6\n2 1\n255\n".to_vec();
    bytes.extend_from_slice(&[1, 2, 3, 4, 5, 6]);
    let (pixels, w, h, max) = bytestream_to_pixelstream(&bytes);
    assert_eq!((w, h, max), (2, 1, 255));
    assert_eq!(pixels.len(), 2);
    assert_eq!(pixels[0].as_pixel(), Ok(Pixel::new(1, 2, 3, 0)));
    assert_eq!(pixels[1].as_pixel(), Ok(Pixel::new(4, 5, 6, 0)));
}

#[test]
fn reads_spaced_header_and_ignores_trailing_bytes() {
    let mut bytes = b"P6  3\n\n1 17 ".to_vec();
    bytes.extend_from_slice(&[9, 9, 9, 8, 8, 8, 7, 7, 7, 0xAA]);
    let (pixels, w, h, max) = bytestream_to_pixelstream(&bytes);
    assert_eq!((w, h, max), (3, 1, 17));
    assert_eq!(pixels.len(), 3);
    assert_eq!(pixels[2].as_pixel(), Ok(Pixel::new(7, 7, 7, 0)));
}

#[test]
fn reads_sixteen_bit_p6() {
    let mut bytes = b"P6\n1 1\n65535\n".to_vec();
    bytes.extend_from_slice(&[0x01, 0x02, 0x03, 0x04, 0x05, 0x06]);
    let (pixels, w, h, max) = bytestream_to_pixelstream(&bytes);
    assert_eq!((w, h, max), (1, 1, 65535));
    assert_eq!(pixels[0].as_pixel16(), Ok(Pixel16::new(0x0102, 0x0304, 0x0506, 0)));
    let mut cache = [DynamicPixel::Pixel(Pixel::default()); 64];
    assert_eq!(encode(&pixels, &mut cache, w, h, max), Err(EncodeError::UnsupportedDepth));
}

#[test]
fn refuses_other_input() {
    let empty = |r: (Vec<DynamicPixel>, u32, u32, u32)| r.0.is_empty() && (r.1, r.2, r.3) == (0, 0, 0);
    assert!(empty(bytestream_to_pixelstream(b"P5\n1 1\n255\n\x01")));
    assert!(empty(bytestream_to_pixelstream(b"P6\n2 1\n255\n\x01\x02\x03")));
    assert!(empty(bytestream_to_pixelstream(b"P6\nx 1\n255\n\x01\x02\x03")));
    assert!(empty(bytestream_to_pixelstream(b"P6\n4294967296 1\n255\n\x01\x02\x03")));
    assert!(empty(bytestream_to_pixelstream(b"P6\n1 1\n255")));
    assert!(empty(bytestream_to_pixelstream(b"")));
}

#[test]
fn largest_dimension_parses() {
    let bytes = b"P6\n4294967295 0\n255\n".to_vec();
    let (pixels, w, h, max) = bytestream_to_pixelstream(&bytes);
    assert_eq!((pixels.len(), w, h, max), (0, 4294967295, 0, 255));
}

#[test]
fn ppm_to_qoi() {
    let mut bytes = b"P6\n2 2\n255\n".to_vec();
    bytes.extend_from_slice(&[0, 0, 0, 0, 0, 0, 1, 1, 1, 200, 0, 0]);
    let (pixels, w, h, max) = bytestream_to_pixelstream(&bytes);
    let mut cache = [DynamicPixel::Pixel(Pixel::default()); 64];
    let out = encode(&pixels, &mut cache, w, h, max).unwrap();
    assert_eq!(&out[..4], b"qoif");
    assert_eq!(&out[out.len() - 8..], &[0, 0, 0, 0, 0, 0, 0, 1]);
}

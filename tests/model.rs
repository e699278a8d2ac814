use qoi::types::{
    DynamicPixel, Pixel, PixelDiff, QoiHeader, QoiOpDiff, QoiOpIndex, QoiOpLuma, QoiOpRGB,
    QoiOpRGBA, QoiOpRun, Range,
};
use qoi::types16::{Pixel16, PixelDiff16};

#[test]
fn pixel_basics() {
    let p = Pixel::new(1, 2, 3, 4);
    assert_eq!(p.extract(), (1, 2, 3, 4));
    assert_eq!(p.as_bytes(), vec![1, 2, 3, 4]);
    let mut v = vec![9];
    p.append_self(&mut v);
    assert_eq!(v, vec![9, 1, 2, 3, 4]);
    assert_eq!(Pixel::default(), Pixel::new(0, 0, 0, 0));
}

#[test]
fn pixel_hash_values() {
    assert_eq!(Pixel::new(0, 0, 0, 0).hash(), 0);
    assert_eq!(Pixel::new(0, 0, 0, 255).hash(), (255 * 11 % 64) as u8);
    assert_eq!(Pixel::new(255, 255, 255, 255).hash(), (255 * 26 % 64) as u8);
    assert_eq!(Pixel::new(1, 2, 3, 4).hash(), 14);
}

#[test]
fn dynamic_pixel_conversions() {
    let a = DynamicPixel::Pixel(Pixel::new(1, 2, 3, 4));
    let b = DynamicPixel::Pixel16(Pixel16::new(5, 6, 7, 8));
    assert_eq!(a.as_pixel(), Ok(Pixel::new(1, 2, 3, 4)));
    assert!(a.as_pixel16().is_err());
    assert_eq!(b.as_pixel16(), Ok(Pixel16::new(5, 6, 7, 8)));
    assert!(b.as_pixel().is_err());
}

#[test]
fn pixel_diff_wraps() {
    let d = PixelDiff::new(&Pixel::new(0, 10, 200, 5), &Pixel::new(1, 8, 10, 5));
    assert_eq!(d.extract(), (-1, 2, -66, 0));
    assert!(d.is_alpha_zero());
    let d = PixelDiff::new(&Pixel::new(0, 0, 0, 0), &Pixel::new(0, 0, 0, 128));
    assert_eq!(d.extract(), (0, 0, 0, -128));
    assert!(!d.is_alpha_zero());
}

#[test]
fn pixel_diff_luma_bias() {
    let d = PixelDiff::new_diff(&Pixel::new(15, 25, 37, 1), &Pixel::new(11, 21, 31, 1));
    assert_eq!(d.extract(), (0, 4, 2, 0));
    let d = PixelDiff::new_diff(&Pixel::new(0, 255, 0, 0), &Pixel::new(255, 0, 255, 0));
    assert_eq!(d.extract(), (2, -1, 2, 0));
    assert_eq!(PixelDiff::new2(1, 2, 3, 4).extract(), (1, 2, 3, 4));
}

#[test]
fn range_and_belongs() {
    assert!(Range::new(PixelDiff::new2(1, 1, 1, 0), PixelDiff::new2(-2, -2, -2, 0)).is_err());
    assert!(Range::new(PixelDiff::new2(0, 0, 0, 0), PixelDiff::new2(0, 0, 0, 0)).is_err());
    assert!(Range::new(3u8, 4u8).is_ok());
    let small = || Range::new(PixelDiff::new2(-2, -2, -2, 0), PixelDiff::new2(1, 1, 1, 0)).unwrap();
    assert!(PixelDiff::new2(1, 1, 1, 0).belongs(small()));
    assert!(PixelDiff::new2(-2, -2, -2, 0).belongs(small()));
    assert!(!PixelDiff::new2(2, 0, 0, 0).belongs(small()));
    assert!(!PixelDiff::new2(0, 0, 0, 1).belongs(small()));
}

#[test]
fn header_bytes() {
    let h = QoiHeader::new(0x0102_0304, 0xA0B0_C0D0, 4, 1);
    assert_eq!(
        h.as_bytes(),
        vec![0x71, 0x6F, 0x69, 0x66, 1, 2, 3, 4, 0xA0, 0xB0, 0xC0, 0xD0, 4, 1]
    );
    let mut v = vec![7];
    h.append_self(&mut v);
    assert_eq!(v.len(), 15);
    assert_eq!(v[1..], h.as_bytes()[..]);
}

#[test]
fn literal_ops() {
    assert_eq!(QoiOpRGB::new(1, 2, 3).as_bytes(), vec![0xFE, 1, 2, 3]);
    assert_eq!(QoiOpRGBA::new(1, 2, 3, 4).as_bytes(), vec![0xFF, 1, 2, 3, 4]);
    let mut v = Vec::new();
    QoiOpRGB::new(7, 8, 9).append_self(&mut v);
    QoiOpRGBA::new(7, 8, 9, 10).append_self(&mut v);
    assert_eq!(v, vec![0xFE, 7, 8, 9, 0xFF, 7, 8, 9, 10]);
}

#[test]
fn index_op() {
    assert_eq!(QoiOpIndex::new(0).as_bytes(), vec![0]);
    assert_eq!(QoiOpIndex::new(63).as_bytes(), vec![63]);
    let mut v = vec![1];
    QoiOpIndex::new(5).append_self(&mut v);
    assert_eq!(v, vec![1, 5]);
}

#[test]
fn diff_op() {
    assert_eq!(QoiOpDiff::new(-2, -2, -2).as_bytes(), vec![0x40]);
    assert_eq!(QoiOpDiff::new(1, 1, 1).as_bytes(), vec![0x7F]);
    assert_eq!(QoiOpDiff::new(-1, 0, 1).as_bytes(), vec![0b0101_1011]);
    let mut v = Vec::new();
    QoiOpDiff::new(0, 0, 0).append_self(&mut v);
    assert_eq!(v, vec![0b0110_1010]);
}

#[test]
fn luma_op() {
    assert_eq!(QoiOpLuma::new(-32, -8, -8).as_bytes(), vec![0x80, 0x00]);
    assert_eq!(QoiOpLuma::new(31, 7, 7).as_bytes(), vec![0xBF, 0xFF]);
    assert_eq!(QoiOpLuma::new(4, 0, 2).as_bytes(), vec![0xA4, 0x8A]);
    let mut v = Vec::new();
    QoiOpLuma::new(0, -1, 1).append_self(&mut v);
    assert_eq!(v, vec![0xA0, 0x79]);
}

#[test]
fn run_op() {
    assert_eq!(QoiOpRun::new(1).as_bytes(), vec![0xC0]);
    assert_eq!(QoiOpRun::new(62).as_bytes(), vec![0xFD]);
    let mut v = Vec::new();
    QoiOpRun::new(2).append_self(&mut v);
    assert_eq!(v, vec![0xC1]);
}

#[test]
fn pixel16_basics() {
    let p = Pixel16::new(1000, 2000, 3000, 65535);
    assert_eq!(p.extract(), (1000, 2000, 3000, 65535));
    assert_eq!(p.hash(), ((1000u32 * 3 + 2000 * 5 + 3000 * 6 + 65535 * 11) % 64) as u8);
    assert_eq!(Pixel16::default(), Pixel16::new(0, 0, 0, 0));
}

#[test]
fn pixel16_diffs() {
    let d = PixelDiff16::new(&Pixel16::new(300, 5, 0, 9), &Pixel16::new(44, 6, 1, 9));
    assert_eq!(d.extract(), (0, -1, -1, 0));
    assert_eq!(PixelDiff16::new2(1, 2, 3, 4).extract(), (1, 2, 3, 4));
    let p1 = Pixel16::new(30, 12, 20, 1);
    let p2 = Pixel16::new(10, 2, 0, 0);
    assert_eq!(PixelDiff16::new_diff(&p1, &p2), Some(PixelDiff16::new2(2, 10, 2, 0)));
    assert_eq!(PixelDiff16::new_diff(&p1, &Pixel16::new(0, 0, 0, 1)), None);
    let range = Range { lower_limit: PixelDiff16::new2(-1, -1, -1, 0), upper_limit: PixelDiff16::new2(1, 1, 1, 0) };
    assert!(d.belongs(range));
    let range = Range { lower_limit: PixelDiff16::new2(0, 0, 0, 0), upper_limit: PixelDiff16::new2(1, 1, 1, 0) };
    assert!(!d.belongs(range));
}

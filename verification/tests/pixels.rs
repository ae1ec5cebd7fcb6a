use asset_bundler::error::Error;
use asset_bundler::pixels::{Compression, Filter, RgbaImage};

fn gradient(width: u32, height: u32) -> Vec<u8> {
    let mut data = Vec::new();
    for y in 0..height {
        for x in 0..width {
            data.push(x as u8);
            data.push(y as u8);
            data.push((x + y) as u8);
            data.push(255);
        }
    }
    data
}

#[test]
fn from_raw_wants_four_bytes_per_pixel() {
    assert!(RgbaImage::from_raw(2, 2, vec![0; 16]).is_some());
    assert!(RgbaImage::from_raw(2, 2, vec![0; 15]).is_none());
    assert!(RgbaImage::from_raw(2, 2, vec![0; 17]).is_none());
    assert!(RgbaImage::from_raw(0, 5, vec![]).is_some());
    assert!(RgbaImage::from_raw(u32::MAX, u32::MAX, vec![0; 4]).is_none());
}

#[test]
fn accessors_hand_back_what_was_given() {
    let img = RgbaImage::from_raw(3, 2, gradient(3, 2)).unwrap();
    assert_eq!(img.width(), 3);
    assert_eq!(img.height(), 2);
    assert_eq!(img.pixels(), &gradient(3, 2));
}

#[test]
fn crop_copies_the_rectangle() {
    let img = RgbaImage::from_raw(4, 3, gradient(4, 3)).unwrap();
    let tile = img.crop(1, 1, 2, 2);
    assert_eq!(tile.width(), 2);
    assert_eq!(tile.height(), 2);
    assert_eq!(
        tile.pixels(),
        &vec![1, 1, 2, 255, 2, 1, 3, 255, 1, 2, 3, 255, 2, 2, 4, 255]
    );
}

#[test]
fn crop_is_cut_down_to_the_image() {
    let img = RgbaImage::from_raw(4, 3, gradient(4, 3)).unwrap();
    let corner = img.crop(3, 2, 16, 16);
    assert_eq!((corner.width(), corner.height()), (1, 1));
    assert_eq!(corner.pixels(), &vec![3, 2, 5, 255]);
    let outside = img.crop(16, 0, 16, 16);
    assert_eq!((outside.width(), outside.height()), (0, 3));
    assert!(outside.pixels().is_empty());
    let below = img.crop(0, 48, 16, 16);
    assert_eq!((below.width(), below.height()), (4, 0));
    assert!(below.pixels().is_empty());
}

#[test]
fn transparency_is_judged_by_alpha_alone() {
    let clear = RgbaImage::from_raw(2, 1, vec![9, 9, 9, 0, 7, 7, 7, 0]).unwrap();
    assert!(clear.is_fully_transparent());
    let last = RgbaImage::from_raw(2, 1, vec![0, 0, 0, 0, 0, 0, 0, 1]).unwrap();
    assert!(!last.is_fully_transparent());
    let first = RgbaImage::from_raw(2, 1, vec![0, 0, 0, 1, 0, 0, 0, 0]).unwrap();
    assert!(!first.is_fully_transparent());
    let nothing = RgbaImage::from_raw(0, 0, vec![]).unwrap();
    assert!(nothing.is_fully_transparent());
}

#[test]
fn with_alpha_keeps_colour_and_size() {
    let img = RgbaImage::from_raw(2, 1, vec![1, 2, 3, 4, 5, 6, 7, 0]).unwrap();
    let faux = img.with_alpha(192);
    assert_eq!((faux.width(), faux.height()), (2, 1));
    assert_eq!(faux.pixels(), &vec![1, 2, 3, 192, 5, 6, 7, 192]);
    assert_eq!(img.pixels(), &vec![1, 2, 3, 4, 5, 6, 7, 0]);
}

#[test]
fn png_decodes_to_the_same_pixels() {
    let img = RgbaImage::from_raw(5, 4, gradient(5, 4)).unwrap();
    let png = img.encode_png(Compression::Best, Filter::NoFilter).unwrap();
    assert_eq!(&png[0..8], &[0x89, b'P', b'N', b'G', 0x0d, 0x0a, 0x1a, 0x0a]);
    let decoded = image::load_from_memory(&png).unwrap();
    assert_eq!(decoded.width(), 5);
    assert_eq!(decoded.height(), 4);
    assert_eq!(decoded.to_rgba8().into_raw(), gradient(5, 4));
}

#[test]
fn png_encoding_is_repeatable() {
    let img = RgbaImage::from_raw(16, 16, gradient(16, 16)).unwrap();
    let a = img.encode_png(Compression::Best, Filter::NoFilter).unwrap();
    let b = img.encode_png(Compression::Best, Filter::NoFilter).unwrap();
    assert_eq!(a, b);
}

#[test]
fn png_settings_reach_the_encoder() {
    let img = RgbaImage::from_raw(64, 64, gradient(64, 64)).unwrap();
    let unfiltered = img.encode_png(Compression::Best, Filter::NoFilter).unwrap();
    let filtered = img.encode_png(Compression::Best, Filter::Sub).unwrap();
    assert_ne!(unfiltered, filtered);
    let back = image::load_from_memory(&filtered).unwrap().to_rgba8().into_raw();
    assert_eq!(back, gradient(64, 64));
}

#[test]
fn empty_image_cannot_be_encoded() {
    let img = RgbaImage::from_raw(0, 0, vec![]).unwrap();
    let r = img.encode_png(Compression::Best, Filter::NoFilter);
    assert!(matches!(r, Err(Error::Image(_))));
}

#[test]
fn encoding_succeeds_exactly_where_there_are_pixels() {
    for (w, h) in [(0u32, 0u32), (0, 3), (3, 0), (1, 1), (2, 3)] {
        let img = RgbaImage::from_raw(w, h, vec![9u8; (4 * w * h) as usize]).unwrap();
        let r = img.encode_png(Compression::Best, Filter::NoFilter);
        assert_eq!(r.is_ok(), w > 0 && h > 0);
        assert_eq!(img.is_fully_transparent(), w == 0 || h == 0);
    }
}

use fqview::path::VirtualPath;
use fqview::raster::{
    decode_generic, decoder_for, finish_decode, try_decode_image, DecodeError, DecodeStep, Decoder,
    Raster,
};

fn png_rgba() -> Vec<u8> {
    let img = image::RgbaImage::from_fn(2, 3, |x, y| image::Rgba([x as u8, y as u8, 7, 200]));
    let mut out = std::io::Cursor::new(Vec::new());
    img.write_to(&mut out, image::ImageFormat::Png).unwrap();
    out.into_inner()
}

fn png_gray() -> Vec<u8> {
    let img = image::GrayImage::from_fn(2, 2, |x, y| image::Luma([(10 * x + y) as u8]));
    let mut out = std::io::Cursor::new(Vec::new());
    img.write_to(&mut out, image::ImageFormat::Png).unwrap();
    out.into_inner()
}

#[test]
fn decoder_is_picked_by_extension() {
    assert_eq!(decoder_for(&VirtualPath::parse("/a/b.heic")), Some(Decoder::Heif));
    assert_eq!(decoder_for(&VirtualPath::parse("/a/b.HEIF")), Some(Decoder::Heif));
    assert_eq!(decoder_for(&VirtualPath::parse("/a/b.png")), Some(Decoder::Generic));
    assert_eq!(decoder_for(&VirtualPath::parse("/a/b.txt")), Some(Decoder::Generic));
    assert_eq!(decoder_for(&VirtualPath::parse("/a/b")), None);
}

#[test]
fn assemble_takes_exactly_the_samples_of_the_size() {
    let r = Raster::assemble(false, 2, 2, (0..20).collect()).unwrap();
    assert_eq!(r.width(), 2);
    assert_eq!(r.height(), 2);
    assert!(!r.has_alpha());
    assert_eq!(r.pixels(), &(0..12).collect::<Vec<u8>>());
    assert_eq!(r.byte_len(), 12);
    let r = Raster::assemble(true, 2, 2, (0..16).collect()).unwrap();
    assert!(r.has_alpha());
    assert_eq!(r.byte_len(), 16);
}

#[test]
fn assemble_refuses_too_few_samples() {
    assert_eq!(Raster::assemble(true, 2, 2, (0..15).collect()), None);
    assert_eq!(Raster::assemble(false, 2, 2, (0..11).collect()), None);
    assert_eq!(Raster::assemble(false, u32::MAX, u32::MAX, vec![0; 16]), None);
    assert!(Raster::assemble(false, 0, 5, Vec::new()).is_some());
}

#[test]
fn generic_decoder_reads_a_png_with_alpha() {
    let r = decode_generic(&png_rgba()).unwrap();
    assert_eq!((r.width(), r.height(), r.has_alpha()), (2, 3, true));
    assert_eq!(r.byte_len(), 24);
    assert_eq!(&r.pixels()[0..8], &[0, 0, 7, 200, 1, 0, 7, 200]);
}

#[test]
fn generic_decoder_hands_other_layouts_on_as_three_channels() {
    let r = decode_generic(&png_gray()).unwrap();
    assert_eq!((r.width(), r.height(), r.has_alpha()), (2, 2, false));
    assert_eq!(r.pixels(), &vec![0, 0, 0, 10, 10, 10, 1, 1, 1, 11, 11, 11]);
}

#[test]
fn generic_decoder_reports_what_it_cannot_read() {
    assert_eq!(decode_generic(&b"no image here".to_vec()), Err(DecodeError::UnknownFormat));
    assert_eq!(decode_generic(&Vec::new()), Err(DecodeError::UnknownFormat));
    let mut cut = png_rgba();
    cut.truncate(40);
    assert_eq!(decode_generic(&cut), Err(DecodeError::CorruptData));
}

#[test]
fn finish_decode_checks_the_sample_count() {
    assert_eq!(finish_decode(Ok((true, 1, 1, vec![1, 2, 3]))), Err(DecodeError::CorruptData));
    assert_eq!(finish_decode(Err(DecodeError::UnknownFormat)), Err(DecodeError::UnknownFormat));
    let r = finish_decode(Ok((false, 1, 1, vec![1, 2, 3]))).unwrap();
    assert_eq!(r.pixels(), &vec![1, 2, 3]);
}

#[test]
fn decode_follows_the_decoder_of_the_path() {
    let bytes = png_rgba();
    match try_decode_image(&bytes, &VirtualPath::parse("/a/pic.png")) {
        DecodeStep::Decoded(r) => assert_eq!((r.width(), r.height()), (2, 3)),
        other => panic!("unexpected {:?}", other),
    }
    assert_eq!(try_decode_image(&bytes, &VirtualPath::parse("/a/pic.heic")), DecodeStep::HandOver);
    assert_eq!(
        try_decode_image(&bytes, &VirtualPath::parse("/a/pic")),
        DecodeStep::Failed(DecodeError::UnknownFormat)
    );
    assert_eq!(
        try_decode_image(&b"junk".to_vec(), &VirtualPath::parse("/a/pic.png")),
        DecodeStep::Failed(DecodeError::UnknownFormat)
    );
}

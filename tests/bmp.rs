use steganography::bmp::Steganography;
use steganography::grid::StegError;

fn bmp_of(width: u32, height: u32, fill: u8) -> Vec<u8> {
    let img = image::RgbImage::from_pixel(width, height, image::Rgb([fill, fill, fill]));
    let mut out = std::io::Cursor::new(Vec::new());
    img.write_to(&mut out, image::ImageFormat::Bmp).expect("failed to write a bitmap");
    out.into_inner()
}

#[test]
fn encode_then_decode_bmp_returns_secret() {
    let cover = bmp_of(8, 8, 0x80);
    let encoded = Steganography::encode_secret_into_bmp("foo".to_string(), cover.clone()).expect("encode failed");
    assert_ne!(encoded, cover);
    assert_eq!(encoded.len(), cover.len());
    assert_eq!(Steganography::decode_secret_from_bmp(encoded), Ok("foo".to_string()));
}

#[test]
fn encoded_bmp_carries_secret_in_low_bits() {
    let cover = bmp_of(6, 6, 0x80);
    let encoded = Steganography::encode_secret_into_bmp("foo".to_string(), cover).unwrap();
    let img = image::load_from_memory(&encoded).unwrap().to_rgb8();
    let raw = img.into_raw();
    assert_eq!(raw.len(), 3 * 36);
    assert!(raw.iter().all(|c| c >> 1 == 0x40));
    assert_eq!(steganography::grid::decode_secret(&raw), Ok("foo".to_string()));
}

#[test]
fn decode_untouched_saturated_bmp_fails() {
    let cover = bmp_of(8, 8, 0xFF);
    assert_eq!(Steganography::decode_secret_from_bmp(cover), Err(StegError::CapacityExceeded));
}

#[test]
fn encode_into_too_small_bmp_fails() {
    let cover = bmp_of(5, 6, 0);
    assert_eq!(
        Steganography::encode_secret_into_bmp("foo".to_string(), cover),
        Err(StegError::CapacityExceeded)
    );
}

#[test]
fn non_image_bytes_are_unsupported() {
    let junk = vec![1u8, 2, 3, 4, 5];
    assert_eq!(Steganography::decode_secret_from_bmp(junk.clone()), Err(StegError::UnsupportedImage));
    assert_eq!(
        Steganography::encode_secret_into_bmp("foo".to_string(), junk),
        Err(StegError::UnsupportedImage)
    );
}

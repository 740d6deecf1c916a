use mechanise::images::{ImageSource, MediaType};

#[test]
fn extensions_name_media_types() {
    assert_eq!(MediaType::from_extension(Some("jpg")), Some(MediaType::Jpeg));
    assert_eq!(MediaType::from_extension(Some("jpeg")), Some(MediaType::Jpeg));
    assert_eq!(MediaType::from_extension(Some("png")), Some(MediaType::Png));
    assert_eq!(MediaType::from_extension(Some("gif")), Some(MediaType::Gif));
    assert_eq!(MediaType::from_extension(Some("webp")), Some(MediaType::Webp));
    assert_eq!(MediaType::from_extension(Some("bmp")), None);
    assert_eq!(MediaType::from_extension(Some("PNG")), None);
    assert_eq!(MediaType::from_extension(None), None);
    assert_eq!(MediaType::Webp.mime(), "image/webp");
    assert_eq!(MediaType::Jpeg.mime(), "image/jpeg");
}

#[test]
fn contents_are_base64_encoded() {
    let img = ImageSource::from_contents(MediaType::Png, b"hello");
    assert_eq!(img.source_type(), "base64");
    assert_eq!(img.media_type(), "image/png");
    assert_eq!(img.data(), "aGVsbG8=");
    assert_eq!(ImageSource::from_contents(MediaType::Gif, b"").data(), "");
}

#[test]
fn encoded_length_is_four_per_group_of_three() {
    assert_eq!(ImageSource::from_contents(MediaType::Jpeg, &[0, 1, 2, 3]).data(), "AAECAw==");
    assert_eq!(ImageSource::from_contents(MediaType::Jpeg, &[255, 254, 253]).data(), "//79");
}

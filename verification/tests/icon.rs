use corsaconnect::icon::decode_icon;

fn png(width: u32, height: u32, rgba: Vec<u8>) -> Vec<u8> {
    let img = image::RgbaImage::from_raw(width, height, rgba).expect("pixels fit");
    let mut out = std::io::Cursor::new(Vec::new());
    img.write_to(&mut out, image::ImageFormat::Png).expect("encode");
    out.into_inner()
}

#[test]
fn icon_decodes_to_rgba_pixels() {
    let pixels = vec![255, 0, 0, 255, 0, 255, 0, 128];
    let bytes = png(2, 1, pixels.clone());
    let icon = decode_icon(&bytes).expect("a PNG");
    assert_eq!((icon.width, icon.height), (2, 1));
    assert_eq!(icon.rgba, pixels);
    assert_ne!(icon.rgba, bytes);
}

#[test]
fn garbage_is_no_icon() {
    assert!(decode_icon(b"not an image").is_none());
    assert!(decode_icon(&[]).is_none());
}

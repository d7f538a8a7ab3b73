use clipplus::clip::{ClipKind, ClipPayload};
use clipplus::clipboard::{
    encode_png, read_image, read_locked, read_text, write_dib, write_file_drop,
    write_unicode_text, CF_DIB, CF_HDROP, CF_UNICODETEXT,
};
use clipplus::dib::{bitmap_of, decode_dib, DecodedImage, PngColor, PngImage};
use clipplus::paths;
use clipplus::text;
use clipplus::utf16;

fn word(out: &mut Vec<u8>, n: u32) {
    out.extend_from_slice(&n.to_le_bytes());
}

fn header(width: i32, height: i32, bits: u16) -> Vec<u8> {
    let mut out = Vec::new();
    word(&mut out, 40);
    word(&mut out, width as u32);
    word(&mut out, height as u32);
    out.extend_from_slice(&1u16.to_le_bytes());
    out.extend_from_slice(&bits.to_le_bytes());
    for _ in 0..6 {
        word(&mut out, 0);
    }
    out
}

/// Rows are stored bottom-up and padded to four bytes; pixels blue first.
#[test]
fn bitmaps_decode_top_down() {
    let mut bytes = header(1, 2, 24);
    bytes.extend_from_slice(&[1, 2, 3, 0]);
    bytes.extend_from_slice(&[4, 5, 6, 0]);
    let image = decode_dib(&bytes).unwrap();
    assert_eq!((image.width, image.height), (1, 2));
    assert_eq!(image.rgba, vec![6, 5, 4, 255, 3, 2, 1, 255]);

    let mut flipped = header(1, -2, 24);
    flipped.extend_from_slice(&[1, 2, 3, 0, 4, 5, 6, 0]);
    assert_eq!(decode_dib(&flipped).unwrap().rgba, vec![3, 2, 1, 255, 6, 5, 4, 255]);

    assert!(decode_dib(&bytes[..47]).is_none());
    assert!(decode_dib(&header(0, 1, 24)).is_none());
    assert!(decode_dib(&header(1, 1, 8)).is_none());
    assert!(decode_dib(&[]).is_none());
}

/// A picture survives the trip into a file and back onto the clipboard.
#[test]
fn pictures_survive_the_round_trip() {
    let image = DecodedImage {
        width: 2,
        height: 1,
        rgba: vec![10, 20, 30, 255, 40, 50, 60, 255],
    };
    let file = encode_png(&image).unwrap();
    assert_eq!(&file[1..4], b"PNG");
    assert_ne!(file, image.rgba);
    let bitmap = write_dib(&file).unwrap();
    let back = decode_dib(&bitmap).unwrap();
    assert_eq!((back.width, back.height), (2, 1));
    assert_eq!(back.rgba, image.rgba);
    // And the bitmap is kept as a file again.
    let again = read_image(&bitmap).unwrap();
    assert_eq!(decode_dib(&write_dib(&again).unwrap()).unwrap().rgba, image.rgba);

    assert!(write_dib(b"not an image").is_none());
    assert!(read_image(b"not a bitmap").is_none());
    let short = DecodedImage { width: 2, height: 1, rgba: vec![0; 7] };
    assert!(encode_png(&short).is_none());
    let gray = PngImage { width: 1, height: 1, color: PngColor::Grayscale, pixels: vec![7] };
    assert!(bitmap_of(&gray).is_none());
    let rgb = PngImage { width: 1, height: 1, color: PngColor::Rgb, pixels: vec![1, 2, 3] };
    let bitmap = bitmap_of(&rgb).unwrap();
    assert_eq!(decode_dib(&bitmap).unwrap().rgba, vec![1, 2, 3, 255]);
}

#[test]
fn text_survives_the_clipboard() {
    for sample in ["hello", "复制 📋 粘贴"] {
        let block = write_unicode_text(sample).unwrap();
        assert_eq!(&block[block.len() - 2..], &[0, 0]);
        assert_eq!(read_text(&block).as_deref(), Some(sample));
    }
    assert_eq!(write_unicode_text(""), None);
    assert_eq!(read_text(&[0, 0, 65, 0]), None);
    assert_eq!(read_text(&[65, 0, 66]).as_deref(), Some("A"));
    assert_eq!(utf16::wide("a📋"), vec![0x61, 0xD83D, 0xDCCB, 0]);
    assert_eq!(utf16::decode(&vec![0x61, 0xD83D]), "a\u{FFFD}");
}

#[test]
fn a_copy_prefers_files_then_text_then_image() {
    let files = || Some(vec!["C:\\a".to_string()]);
    let words = || Some("w".to_string());
    let image = || Some(vec![1]);
    assert!(matches!(read_locked(files(), words(), image()), Some(ClipPayload::Files(_))));
    assert!(matches!(read_locked(Some(vec![]), words(), image()), Some(ClipPayload::Text(_))));
    assert!(matches!(read_locked(None, Some(String::new()), image()), Some(ClipPayload::Image(_))));
    assert!(read_locked(None, None, None).is_none());
}

#[test]
fn payloads_are_published_in_their_own_format() {
    let (format, block) = clipplus::clipboard::write(&ClipPayload::Text("A".to_string())).unwrap();
    assert_eq!((format, block), (CF_UNICODETEXT, vec![65, 0, 0, 0]));
    let (format, block) = clipplus::clipboard::write(&ClipPayload::Files(vec!["a".to_string()])).unwrap();
    assert_eq!(format, CF_HDROP);
    assert_eq!(block.len(), 20 + 6);
    assert_eq!(&block[..4], &[20, 0, 0, 0]);
    assert_eq!(&block[20..], &[97, 0, 0, 0, 0, 0]);
    assert_eq!(write_file_drop(&vec![]), None);
    let image = DecodedImage { width: 1, height: 1, rgba: vec![1, 2, 3, 255] };
    let file = encode_png(&image).unwrap();
    assert_eq!(clipplus::clipboard::write(&ClipPayload::Image(file)).unwrap().0, CF_DIB);
    assert!(clipplus::clipboard::write(&ClipPayload::Image(vec![1])).is_none());
    assert_eq!(ClipKind::from_name("image"), ClipKind::Image);
    assert_eq!(ClipKind::from_name("anything"), ClipKind::Text);
    assert_eq!(ClipKind::Files.name(), "files");
}

#[test]
fn numbers_are_read_as_people_type_them() {
    assert_eq!(text::parse_number("0042", 100), Some(42));
    assert_eq!(text::parse_number("+7", 100), Some(7));
    assert_eq!(text::parse_number("101", 100), None);
    assert_eq!(text::parse_number("99999999999999999999999", u64::MAX), None);
    assert_eq!(text::parse_number("", 100), None);
    assert_eq!(text::parse_number("1a", 100), None);
    assert_eq!(text::decimal_text(u64::MAX), "18446744073709551615");
    assert_eq!(text::trim(" \u{3000}a b\t\n"), "a b");
    assert_eq!(text::lines("a\r\nb\n"), vec!["a", "b"]);
    assert_eq!(text::hex_text(&vec![0, 171]), "00AB");
}

#[test]
fn paths_follow_windows() {
    assert_eq!(paths::join("C:\\sync", "m"), "C:\\sync\\m");
    assert_eq!(paths::join("C:\\sync\\", "m"), "C:\\sync\\m");
    assert_eq!(paths::file_name("C:/a/b.db").as_deref(), Some("b.db"));
    assert_eq!(paths::parent("C:\\a\\b").as_deref(), Some("C:\\a"));
    assert_eq!(paths::with_file_name("C:\\a\\b", "c"), "C:\\a\\c");
    assert!(paths::same_path("C:\\a\\b", "C:/a/b"));
    assert!(!paths::same_path("C:\\a\\b", "C:\\a\\c"));
}

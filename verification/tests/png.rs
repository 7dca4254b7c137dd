use safe_writing::png::{join_text_chunks, read_png_metadata, PngText};

// A grey image of one pixel with a tEXt chunk ("me"), a zTXt chunk
// ("zipped caf\u{e9}" in Latin-1) and an iTXt chunk ("h\u{e9}llo \u{4e16}"),
// in this order.
const WITH_TEXT: [u8; 160] = [
    0x89, 0x50, 0x4e, 0x47, 0x0d, 0x0a, 0x1a, 0x0a, 0x00, 0x00, 0x00, 0x0d, 0x49, 0x48, 0x44, 0x52,
    0x00, 0x00, 0x00, 0x01, 0x00, 0x00, 0x00, 0x01, 0x08, 0x00, 0x00, 0x00, 0x00, 0x3a, 0x7e, 0x9b,
    0x55, 0x00, 0x00, 0x00, 0x09, 0x74, 0x45, 0x58, 0x74, 0x41, 0x75, 0x74, 0x68, 0x6f, 0x72, 0x00,
    0x6d, 0x65, 0x06, 0x20, 0x70, 0xfa, 0x00, 0x00, 0x00, 0x1c, 0x7a, 0x54, 0x58, 0x74, 0x43, 0x6f,
    0x6d, 0x6d, 0x65, 0x6e, 0x74, 0x00, 0x00, 0x78, 0x9c, 0xab, 0xca, 0x2c, 0x28, 0x48, 0x4d, 0x51,
    0x48, 0x4e, 0x4c, 0x7b, 0x09, 0x00, 0x1a, 0xf2, 0x04, 0xc0, 0x1e, 0xe8, 0x1d, 0x1c, 0x00, 0x00,
    0x00, 0x14, 0x69, 0x54, 0x58, 0x74, 0x54, 0x69, 0x74, 0x6c, 0x65, 0x00, 0x00, 0x00, 0x00, 0x00,
    0x68, 0xc3, 0xa9, 0x6c, 0x6c, 0x6f, 0x20, 0xe4, 0xb8, 0x96, 0x60, 0x63, 0x18, 0x6b, 0x00, 0x00,
    0x00, 0x0a, 0x49, 0x44, 0x41, 0x54, 0x78, 0x9c, 0x63, 0xa8, 0x07, 0x00, 0x00, 0x81, 0x00, 0x80,
    0xd3, 0x94, 0x53, 0x4a, 0x00, 0x00, 0x00, 0x00, 0x49, 0x45, 0x4e, 0x44, 0xae, 0x42, 0x60, 0x82,
];

// The same image without text chunks.
const WITHOUT_TEXT: [u8; 67] = [
    0x89, 0x50, 0x4e, 0x47, 0x0d, 0x0a, 0x1a, 0x0a, 0x00, 0x00, 0x00, 0x0d, 0x49, 0x48, 0x44, 0x52,
    0x00, 0x00, 0x00, 0x01, 0x00, 0x00, 0x00, 0x01, 0x08, 0x00, 0x00, 0x00, 0x00, 0x3a, 0x7e, 0x9b,
    0x55, 0x00, 0x00, 0x00, 0x0a, 0x49, 0x44, 0x41, 0x54, 0x78, 0x9c, 0x63, 0xa8, 0x07, 0x00, 0x00,
    0x81, 0x00, 0x80, 0xd3, 0x94, 0x53, 0x4a, 0x00, 0x00, 0x00, 0x00, 0x49, 0x45, 0x4e, 0x44, 0xae,
    0x42, 0x60, 0x82,
];

// The same image with the tEXt chunk alone.
const ONE_TEXT: [u8; 88] = [
    0x89, 0x50, 0x4e, 0x47, 0x0d, 0x0a, 0x1a, 0x0a, 0x00, 0x00, 0x00, 0x0d, 0x49, 0x48, 0x44, 0x52,
    0x00, 0x00, 0x00, 0x01, 0x00, 0x00, 0x00, 0x01, 0x08, 0x00, 0x00, 0x00, 0x00, 0x3a, 0x7e, 0x9b,
    0x55, 0x00, 0x00, 0x00, 0x09, 0x74, 0x45, 0x58, 0x74, 0x41, 0x75, 0x74, 0x68, 0x6f, 0x72, 0x00,
    0x6d, 0x65, 0x06, 0x20, 0x70, 0xfa, 0x00, 0x00, 0x00, 0x0a, 0x49, 0x44, 0x41, 0x54, 0x78, 0x9c,
    0x63, 0xa8, 0x07, 0x00, 0x00, 0x81, 0x00, 0x80, 0xd3, 0x94, 0x53, 0x4a, 0x00, 0x00, 0x00, 0x00,
    0x49, 0x45, 0x4e, 0x44, 0xae, 0x42, 0x60, 0x82,
];

// The tEXt chunk and a zTXt chunk whose data is no zlib stream.
const BAD_ZTXT: [u8; 113] = [
    0x89, 0x50, 0x4e, 0x47, 0x0d, 0x0a, 0x1a, 0x0a, 0x00, 0x00, 0x00, 0x0d, 0x49, 0x48, 0x44, 0x52,
    0x00, 0x00, 0x00, 0x01, 0x00, 0x00, 0x00, 0x01, 0x08, 0x00, 0x00, 0x00, 0x00, 0x3a, 0x7e, 0x9b,
    0x55, 0x00, 0x00, 0x00, 0x09, 0x74, 0x45, 0x58, 0x74, 0x41, 0x75, 0x74, 0x68, 0x6f, 0x72, 0x00,
    0x6d, 0x65, 0x06, 0x20, 0x70, 0xfa, 0x00, 0x00, 0x00, 0x0d, 0x7a, 0x54, 0x58, 0x74, 0x43, 0x6f,
    0x6d, 0x6d, 0x65, 0x6e, 0x74, 0x00, 0x00, 0x01, 0x02, 0x03, 0x04, 0x88, 0xde, 0x8c, 0xf7, 0x00,
    0x00, 0x00, 0x0a, 0x49, 0x44, 0x41, 0x54, 0x78, 0x9c, 0x63, 0xa8, 0x07, 0x00, 0x00, 0x81, 0x00,
    0x80, 0xd3, 0x94, 0x53, 0x4a, 0x00, 0x00, 0x00, 0x00, 0x49, 0x45, 0x4e, 0x44, 0xae, 0x42, 0x60,
    0x82,
];

#[test]
fn png_texts_are_joined_by_kind() {
    assert_eq!(
        read_png_metadata(&WITH_TEXT.to_vec()),
        Some("h\u{e9}llo \u{4e16}\nzipped caf\u{e9}\nme".to_string())
    );
}

#[test]
fn png_with_one_text_gives_it_alone() {
    assert_eq!(read_png_metadata(&ONE_TEXT.to_vec()), Some("me".to_string()));
}

#[test]
fn png_without_text_gives_empty_text() {
    assert_eq!(read_png_metadata(&WITHOUT_TEXT.to_vec()), Some(String::new()));
}

#[test]
fn png_with_text_that_does_not_decompress_gives_nothing() {
    assert_eq!(read_png_metadata(&BAD_ZTXT.to_vec()), None);
}

#[test]
fn bytes_that_are_no_png_give_nothing() {
    assert_eq!(read_png_metadata(&vec![]), None);
    assert_eq!(read_png_metadata(&b"not a png at all".to_vec()), None);
    assert_eq!(read_png_metadata(&WITH_TEXT[..40].to_vec()), None);
}

#[test]
fn text_chunks_join_in_order() {
    let text = PngText {
        international: vec![Some("a".to_string()), Some(String::new())],
        compressed: vec![Some("b".to_string())],
        plain: vec!["c".to_string(), "d".to_string()],
    };
    assert_eq!(join_text_chunks(&text), Some("a\n\nb\nc\nd".to_string()));
    let text = PngText {
        international: vec![],
        compressed: vec![],
        plain: vec![],
    };
    assert_eq!(join_text_chunks(&text), Some(String::new()));
    let text = PngText {
        international: vec![],
        compressed: vec![],
        plain: vec![String::new(), String::new()],
    };
    assert_eq!(join_text_chunks(&text), Some("\n".to_string()));
    let text = PngText {
        international: vec![Some("a".to_string())],
        compressed: vec![Some("b".to_string()), None],
        plain: vec!["c".to_string()],
    };
    assert_eq!(join_text_chunks(&text), None);
}

use safe_writing::encode::{
    base64_decode, base64_decode_slice, base64_decode_text, base64_decode_to_bytes,
    base64_encode, text_from_utf8,
};
use safe_writing::error::Error;

#[test]
fn base64_encode_known_vectors() {
    assert_eq!(base64_encode(b""), "");
    assert_eq!(base64_encode(b"f"), "Zg==");
    assert_eq!(base64_encode(b"fo"), "Zm8=");
    assert_eq!(base64_encode(b"foo"), "Zm9v");
    assert_eq!(base64_encode(b"foob"), "Zm9vYg==");
    assert_eq!(base64_encode(b"fooba"), "Zm9vYmE=");
    assert_eq!(base64_encode(b"foobar"), "Zm9vYmFy");
    assert_eq!(base64_encode(&[0xfb, 0xff, 0xbf]), "+/+/");
}

#[test]
fn base64_text_has_four_symbols_for_three_bytes() {
    for n in 0..50usize {
        assert_eq!(base64_encode(&vec![0xa5; n]).len(), 4 * ((n + 2) / 3));
    }
}

#[test]
fn base64_text_holds_only_base64_symbols() {
    let data: Vec<u8> = (0..=255u8).collect();
    let text = base64_encode(&data);
    assert!(text
        .chars()
        .all(|c| c.is_ascii_alphanumeric() || c == '+' || c == '/' || c == '='));
    assert_eq!(base64_decode_to_bytes(&text), Ok(data));
}

#[test]
fn base64_decode_known_vectors() {
    assert_eq!(base64_decode_to_bytes(""), Ok(vec![]));
    assert_eq!(base64_decode_to_bytes("Zg=="), Ok(b"f".to_vec()));
    assert_eq!(base64_decode_to_bytes("Zm9vYmFy"), Ok(b"foobar".to_vec()));
    assert_eq!(base64_decode_slice(b"+/+/"), Ok(vec![0xfb, 0xff, 0xbf]));
    assert_eq!(base64_decode("Zm9v"), Ok("foo".to_string()));
    assert_eq!(base64_decode_text(b"YnLDuGQ="), Ok("br\u{f8}d".to_string()));
}

#[test]
fn base64_decode_refuses_what_is_not_base64() {
    assert_eq!(base64_decode_to_bytes("Zg"), Err(Error::Base64DecodeFail));
    assert_eq!(base64_decode_to_bytes("Zg="), Err(Error::Base64DecodeFail));
    assert_eq!(base64_decode_to_bytes("Zh=="), Err(Error::Base64DecodeFail));
    assert_eq!(base64_decode_to_bytes("Zm9v\n"), Err(Error::Base64DecodeFail));
    assert_eq!(base64_decode_to_bytes("Zm-9"), Err(Error::Base64DecodeFail));
    assert_eq!(base64_decode_slice(&[0x88]), Err(Error::Base64DecodeFail));
    assert_eq!(base64_decode("****"), Err(Error::Base64DecodeFail));
}

#[test]
fn base64_decode_refuses_bytes_that_are_no_text() {
    // "/w==" is the byte 0xff, "wyg=" an overlong start followed by "(".
    assert_eq!(base64_decode("/w=="), Err(Error::InvalidUTF8));
    assert_eq!(base64_decode_text(b"wyg="), Err(Error::InvalidUTF8));
}

#[test]
fn text_from_utf8_reads_valid_text_only() {
    assert_eq!(text_from_utf8(vec![]), Ok(String::new()));
    assert_eq!(text_from_utf8(b"plain".to_vec()), Ok("plain".to_string()));
    assert_eq!(
        text_from_utf8(vec![0xe2, 0x82, 0xac, 0xf0, 0x9f, 0x98, 0x80]),
        Ok("\u{20ac}\u{1f600}".to_string())
    );
    assert_eq!(text_from_utf8(vec![0x80]), Err(Error::InvalidUTF8));
    assert_eq!(text_from_utf8(vec![0xc0, 0xaf]), Err(Error::InvalidUTF8));
    assert_eq!(text_from_utf8(vec![0xed, 0xa0, 0x80]), Err(Error::InvalidUTF8));
    assert_eq!(text_from_utf8(vec![0xe2, 0x82]), Err(Error::InvalidUTF8));
}

use safe_writing::codec::{
    decode_entry_bytes, decode_images, decode_passages, find_byte, read_le32, write_le32,
};
use safe_writing::data_structures::{Passage, PlainText};
use safe_writing::error::Error;

fn two_passages() -> PlainText {
    PlainText::from_passages(vec![
        Passage::new(0, "Title".to_string(), "Body text".to_string()),
        Passage::new(0, "Second".to_string(), String::new()),
    ])
}

#[test]
fn passage_entry_is_title_dash_text() {
    let passage = Passage::new(3, "Title".to_string(), "Body text".to_string());
    assert_eq!(passage.encode(), "VGl0bGU=-Qm9keSB0ZXh0");
    assert_eq!(Passage::new(0, String::new(), String::new()).encode(), "-");
}

#[test]
fn payload_of_text_only_note() {
    assert_eq!(
        two_passages().encode(),
        b"VGl0bGU=-Qm9keSB0ZXh0|U2Vjb25k-:FontSize=24".to_vec()
    );
}

#[test]
fn payload_of_empty_note_is_the_suffix() {
    assert_eq!(PlainText::empty().encode(), b":FontSize=24".to_vec());
}

#[test]
fn payload_with_images_has_sentinel_count_and_lengths() {
    let mut doc = two_passages();
    doc.images_mut().push(vec![0x89, 0x50, 0x4e]);
    doc.images_mut().push(vec![]);
    let mut expected = b"VGl0bGU=-Qm9keSB0ZXh0|U2Vjb25k-:FontSize=24".to_vec();
    expected.extend_from_slice(&[
        0x88, 2, 0, 0, 0, 3, 0, 0, 0, 0x89, 0x50, 0x4e, 0, 0, 0, 0,
    ]);
    assert_eq!(doc.encode(), expected);
}

#[test]
fn empty_note_round_trip() {
    let back = PlainText::decode(&PlainText::empty().encode()).unwrap();
    assert_eq!(back, PlainText::empty());
    assert!(back.is_empty());
    assert_eq!(back.num_images(), 0);
}

#[test]
fn text_round_trip_keeps_titles_and_texts() {
    let doc = PlainText::from_passages(vec![
        Passage::new(0, "a-b|c:d".to_string(), "line one\nline two".to_string()),
        Passage::new(0, String::new(), String::new()),
        Passage::new(0, "\u{4f60}\u{597d}".to_string(), "\u{1f600} \u{88}".to_string()),
    ]);
    let back = PlainText::decode(&doc.encode()).unwrap();
    assert_eq!(back, doc);
    assert_eq!(back.num_passages(), 3);
    assert_eq!(back.id_of_passage(0), Some(0));
    assert_eq!(back.id_of_passage(2), Some(2));
}

#[test]
fn decoding_numbers_passages_by_position() {
    let mut doc = PlainText::empty();
    doc.insert_new_passage(0, "one".to_string());
    doc.insert_new_passage(0, "two".to_string());
    doc.insert_new_passage(0, "three".to_string());
    doc.remove_passage(1);
    assert_eq!(doc.id_of_passage(0), Some(2));
    assert_eq!(doc.id_of_passage(1), Some(0));
    let back = PlainText::decode(&doc.encode()).unwrap();
    assert_eq!(back.title_of_passage(0), Some("three".to_string()));
    assert_eq!(back.title_of_passage(1), Some("one".to_string()));
    assert_eq!(back.id_of_passage(0), Some(0));
    assert_eq!(back.id_of_passage(1), Some(1));
    back.passages().iter().for_each(|p| assert!(p.content().is_empty()));
}

#[test]
fn image_round_trip_keeps_bytes_and_order() {
    let images: Vec<Vec<u8>> = vec![
        vec![0x88, 0x88, 0x00, 0xff],
        vec![],
        (0..=255u8).collect(),
        b":FontSize=24|-".to_vec(),
        vec![7; 70_000],
    ];
    let doc = PlainText::from_passages_images(
        vec![Passage::new(0, "t".to_string(), "c".to_string())],
        images.clone(),
    );
    let back = PlainText::decode(&doc.encode()).unwrap();
    assert_eq!(back.num_images(), 5);
    assert_eq!(back.images(), &images);
    assert_eq!(back, doc);
}

#[test]
fn images_of_a_note_without_passages_are_not_read_back() {
    let doc = PlainText::from_passages_images(vec![], vec![vec![1, 2, 3]]);
    let payload = doc.encode();
    assert_eq!(payload[12], 0x88);
    let back = PlainText::decode(&payload).unwrap();
    assert_eq!(back, PlainText::empty());
}

#[test]
fn malformed_passage_grammar_rejected() {
    assert_eq!(
        PlainText::decode(b"VGl0bGU=:FontSize=24"),
        Err(Error::InvalidPlaintextFormat)
    );
    assert_eq!(
        PlainText::decode(b"VGl0bGU=-Qm9keQ==|U2Vjb25k:FontSize=24"),
        Err(Error::InvalidPlaintextFormat)
    );
    assert_eq!(
        PlainText::decode(b"VGl0bGU=-Qm9keQ==|:FontSize=24"),
        Err(Error::InvalidPlaintextFormat)
    );
    assert_eq!(
        PlainText::decode(b"|VGl0bGU=-Qm9keQ==:FontSize=24"),
        Err(Error::InvalidPlaintextFormat)
    );
}

#[test]
fn payload_without_colon_rejected() {
    assert_eq!(PlainText::decode(b""), Err(Error::InvalidPlaintextFormat));
    assert_eq!(
        PlainText::decode(b"VGl0bGU=-Qm9keQ=="),
        Err(Error::InvalidPlaintextFormat)
    );
    assert_eq!(
        PlainText::decode(&[b'x', 0x88, 0, 0, 0, 0]),
        Err(Error::InvalidPlaintextFormat)
    );
}

#[test]
fn payload_that_ends_with_the_sentinel_rejected() {
    // The image section is there and lacks its count.
    assert_eq!(
        PlainText::decode(b"YQ==-Yg==:FontSize=24\x88"),
        Err(Error::InvalidImageFormat)
    );
    assert_eq!(
        PlainText::decode(b":FontSize=24\x88"),
        Err(Error::InvalidImageFormat)
    );
    // The image section is looked at before the colon.
    assert_eq!(PlainText::decode(&[0x88]), Err(Error::InvalidImageFormat));
    // Without a sentinel there is no image section to miss.
    assert_eq!(
        PlainText::decode(b"YQ==-Yg==:FontSize=24").unwrap().num_images(),
        0
    );
}

#[test]
fn text_segment_written_is_ascii_and_sentinel_follows_it() {
    let mut doc = PlainText::from_passages(vec![
        Passage::new(0, "\u{88}\u{4f60}".to_string(), "\u{1f600}|-:".to_string()),
        Passage::new(0, String::new(), "\u{c8}\u{88}".to_string()),
    ]);
    let text = doc.encode();
    assert!(text.iter().all(|b| *b < 0x80));
    assert!(text.ends_with(b":FontSize=24"));
    doc.images_mut().push(vec![0x88, 1, 2]);
    doc.images_mut().push(vec![]);
    doc.images_mut().push(vec![9; 40]);
    let out = doc.encode();
    assert_eq!(&out[..text.len()], &text[..]);
    assert_eq!(out.iter().position(|b| *b == 0x88), Some(text.len()));
    assert_eq!(out.len(), text.len() + 5 + 4 * 3 + 3 + 40);
}

#[test]
fn only_the_first_colon_counts() {
    let back = PlainText::decode(b"YQ==-Yg==:anything:at|all-").unwrap();
    assert_eq!(back.num_passages(), 1);
    assert_eq!(back.title_of_passage(0), Some("a".to_string()));
    assert_eq!(back.get_first_passage_text(), Some("b".to_string()));
    assert_eq!(PlainText::decode(b":"), Ok(PlainText::empty()));
}

#[test]
fn entry_field_that_is_not_base64_rejected() {
    assert_eq!(
        PlainText::decode(b"VGl0bGU-Qm9keQ==:FontSize=24"),
        Err(Error::Base64DecodeFail)
    );
    assert_eq!(
        PlainText::decode(b"VGl0bGU=-Qm9keQ:FontSize=24"),
        Err(Error::Base64DecodeFail)
    );
    // The first "-" separates; a second one spoils the text part.
    assert_eq!(
        PlainText::decode(b"YQ==-Yg==-Yw==:FontSize=24"),
        Err(Error::Base64DecodeFail)
    );
}

#[test]
fn entry_field_that_is_not_text_rejected() {
    assert_eq!(
        PlainText::decode(b"/w==-Yg==:FontSize=24"),
        Err(Error::InvalidUTF8)
    );
    assert_eq!(
        PlainText::decode(b"YQ==-/w==:FontSize=24"),
        Err(Error::InvalidUTF8)
    );
}

#[test]
fn first_failing_entry_decides_the_error() {
    assert_eq!(
        PlainText::decode(b"YQ==-/w==|nodash:FontSize=24"),
        Err(Error::InvalidUTF8)
    );
    assert_eq!(
        PlainText::decode(b"nodash|YQ==-/w==:FontSize=24"),
        Err(Error::InvalidPlaintextFormat)
    );
    assert_eq!(
        PlainText::decode(b"****-/w==:FontSize=24"),
        Err(Error::Base64DecodeFail)
    );
}

#[test]
fn text_segment_that_is_not_utf8_rejected() {
    assert_eq!(
        PlainText::decode(&[0xff, b':', b'x']),
        Err(Error::InvalidUTF8)
    );
    // The text segment is checked before the image section.
    assert_eq!(
        PlainText::decode(&[0xff, b':', 0x88, 1]),
        Err(Error::InvalidUTF8)
    );
}

#[test]
fn truncated_image_section_rejected() {
    let text = b"YQ==-Yg==:FontSize=24".to_vec();
    let with = |section: &[u8]| {
        let mut payload = text.clone();
        payload.push(0x88);
        payload.extend_from_slice(section);
        PlainText::decode(&payload)
    };
    // The count is missing.
    assert_eq!(with(&[]), Err(Error::InvalidImageFormat));
    // The count is cut short.
    assert_eq!(with(&[1, 0, 0]), Err(Error::InvalidImageFormat));
    // One image announced, none there.
    assert_eq!(with(&[1, 0, 0, 0]), Err(Error::InvalidImageFormat));
    // The length is cut short.
    assert_eq!(with(&[1, 0, 0, 0, 3, 0]), Err(Error::InvalidImageFormat));
    // Three bytes announced, two there.
    assert_eq!(
        with(&[1, 0, 0, 0, 3, 0, 0, 0, 9, 9]),
        Err(Error::InvalidImageFormat)
    );
    // Two images announced, one there.
    assert_eq!(
        with(&[2, 0, 0, 0, 1, 0, 0, 0, 9]),
        Err(Error::InvalidImageFormat)
    );
    // A length of four gigabytes.
    assert_eq!(
        with(&[1, 0, 0, 0, 0xff, 0xff, 0xff, 0xff, 9]),
        Err(Error::InvalidImageFormat)
    );
    // The image section is checked before the passage grammar.
    assert_eq!(
        PlainText::decode(&[b'x', 0x88, 1, 0, 0, 0]),
        Err(Error::InvalidImageFormat)
    );
}

#[test]
fn image_section_edge_cases() {
    let text = b"YQ==-Yg==:FontSize=24".to_vec();
    let with = |section: &[u8]| {
        let mut payload = text.clone();
        payload.push(0x88);
        payload.extend_from_slice(section);
        PlainText::decode(&payload).unwrap()
    };
    // A count of zero.
    assert_eq!(with(&[0, 0, 0, 0]).num_images(), 0);
    // What follows the last image is not looked at.
    let doc = with(&[1, 0, 0, 0, 2, 0, 0, 0, 5, 6, 7, 8, 9]);
    assert_eq!(doc.images(), &vec![vec![5u8, 6]]);
    // Only the first sentinel separates.
    let doc = with(&[1, 0, 0, 0, 2, 0, 0, 0, 0x88, 0x88]);
    assert_eq!(doc.images(), &vec![vec![0x88u8, 0x88]]);
}

#[test]
fn decode_images_reads_a_section() {
    assert_eq!(decode_images(&[]), Err(Error::InvalidImageFormat));
    assert_eq!(decode_images(&[0, 0, 0, 0]), Ok(vec![]));
    assert_eq!(
        decode_images(&[2, 0, 0, 0, 1, 0, 0, 0, 0xaa, 0, 0, 0, 0]),
        Ok(vec![vec![0xaa], vec![]])
    );
    assert_eq!(decode_images(&[0, 0, 0]), Err(Error::InvalidImageFormat));
    assert_eq!(
        decode_images(&[0, 1, 0, 0, 0, 0, 0, 0]),
        Err(Error::InvalidImageFormat)
    );
}

#[test]
fn decode_entry_and_list() {
    assert_eq!(
        decode_entry_bytes(b"YQ==-Yg=="),
        Ok(("a".to_string(), "b".to_string()))
    );
    assert_eq!(decode_entry_bytes(b"-"), Ok((String::new(), String::new())));
    assert_eq!(decode_entry_bytes(b""), Err(Error::InvalidPlaintextFormat));
    let passages = decode_passages(b"YQ==-Yg==|-|Yw==-").unwrap();
    assert_eq!(passages.len(), 3);
    assert_eq!(passages[1], Passage::new(1, String::new(), String::new()));
    assert_eq!(passages[2], Passage::new(2, "c".to_string(), String::new()));
    assert_eq!(decode_passages(b""), Err(Error::InvalidPlaintextFormat));
}

#[test]
fn little_endian_numbers() {
    let mut out = vec![0xaa];
    write_le32(&mut out, 0x0403_0201);
    write_le32(&mut out, 0);
    write_le32(&mut out, u32::MAX);
    write_le32(&mut out, 256);
    assert_eq!(
        out,
        vec![0xaa, 1, 2, 3, 4, 0, 0, 0, 0, 0xff, 0xff, 0xff, 0xff, 0, 1, 0, 0]
    );
    assert_eq!(read_le32(&out, 1), 0x0403_0201);
    assert_eq!(read_le32(&out, 9), u32::MAX);
    assert_eq!(read_le32(&out, 13), 256);
}

#[test]
fn find_byte_gives_first_place_or_length() {
    let bytes = b"ab|cd|";
    assert_eq!(find_byte(bytes, 0, b'|'), 2);
    assert_eq!(find_byte(bytes, 2, b'|'), 2);
    assert_eq!(find_byte(bytes, 3, b'|'), 5);
    assert_eq!(find_byte(bytes, 6, b'|'), 6);
    assert_eq!(find_byte(bytes, 0, b'x'), 6);
    assert_eq!(find_byte(b"", 0, b'x'), 0);
}

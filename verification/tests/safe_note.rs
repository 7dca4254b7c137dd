use safe_writing::data_structures::{Passage, PlainText};
use safe_writing::error::Error;
use safe_writing::safe_note::{
    decrypt_safe_note_file, decrypt_safe_notes_ciphertext, legacy_derive, SafeNoteFile,
    SafeNoteRecord,
};

const TITLE: &str = "U2FsdGVkX1/0otUe0h2viNWrbO9lPY7TSEK47Nnmz+g=";

const DESCRIPTION: &str = "U2FsdGVkX19k8FY2mI0mM4uYJX44ibJ8/39RuU2qgonQyu1nEcL7cODfAzimpdzb";

#[test]
fn legacy_import_fixture() {
    assert_eq!(
        decrypt_safe_notes_ciphertext("hunter2", TITLE),
        Ok("Groceries".to_string())
    );
    assert_eq!(
        decrypt_safe_notes_ciphertext("hunter2", DESCRIPTION),
        Ok("milk, eggs and a loaf of br\u{f8}d".to_string())
    );
}

#[test]
fn legacy_key_material_is_two_chained_hashes() {
    // SHA256("abc") followed by the first 16 bytes of
    // SHA256(SHA256("abc") + "abc").
    let material = legacy_derive(b"a", b"bc");
    assert_eq!(material.len(), 48);
    assert_eq!(
        material[..32].to_vec(),
        vec![
            0xba, 0x78, 0x16, 0xbf, 0x8f, 0x01, 0xcf, 0xea, 0x41, 0x41, 0x40, 0xde, 0x5d, 0xae,
            0x22, 0x23, 0xb0, 0x03, 0x61, 0xa3, 0x96, 0x17, 0x7a, 0x9c, 0xb4, 0x10, 0xff, 0x61,
            0xf2, 0x00, 0x15, 0xad
        ]
    );
    assert_eq!(legacy_derive(b"ab", b"c"), material);
    assert_ne!(legacy_derive(b"a", b"bd")[32..], material[32..]);
}

#[test]
fn legacy_field_that_is_not_base64_rejected() {
    assert_eq!(
        decrypt_safe_notes_ciphertext("hunter2", "not base64"),
        Err(Error::Base64DecodeFail)
    );
}

#[test]
fn legacy_blob_that_is_too_short_rejected() {
    assert_eq!(
        decrypt_safe_notes_ciphertext("hunter2", ""),
        Err(Error::DecryptionFail)
    );
    // "Salted__" and seven bytes of salt.
    assert_eq!(
        decrypt_safe_notes_ciphertext("hunter2", "U2FsdGVkX18AAAAAAAAA"),
        Err(Error::DecryptionFail)
    );
    // Header and salt, no ciphertext.
    assert_eq!(
        decrypt_safe_notes_ciphertext("hunter2", "U2FsdGVkX18AAAAAAAAAAA=="),
        Err(Error::DecryptionFail)
    );
    // A ciphertext of one byte.
    assert_eq!(
        decrypt_safe_notes_ciphertext("hunter2", "U2FsdGVkX18AAAAAAAAAAAA="),
        Err(Error::DecryptionFail)
    );
}

#[test]
fn legacy_field_under_wrong_password_does_not_decrypt() {
    assert!(decrypt_safe_notes_ciphertext("hunter3", TITLE).is_err());
    assert!(decrypt_safe_notes_ciphertext("", DESCRIPTION).is_err());
}

#[test]
fn legacy_file_is_decrypted_record_by_record() {
    let file = SafeNoteFile::new(vec![
        SafeNoteRecord::new(TITLE.to_string(), DESCRIPTION.to_string()),
        SafeNoteRecord::new(DESCRIPTION.to_string(), TITLE.to_string()),
    ]);
    let plain = decrypt_safe_note_file("hunter2", &file).unwrap();
    assert_eq!(plain.records().len(), 2);
    assert_eq!(plain.records()[0].title(), "Groceries");
    assert_eq!(
        plain.records()[0].description(),
        "milk, eggs and a loaf of br\u{f8}d"
    );
    assert_eq!(plain.records()[1].description(), "Groceries");
    assert_eq!(
        decrypt_safe_note_file("hunter2", &SafeNoteFile::new(vec![])),
        Ok(SafeNoteFile::new(vec![]))
    );
}

#[test]
fn legacy_file_is_imported_whole_or_not_at_all() {
    let file = SafeNoteFile::new(vec![
        SafeNoteRecord::new(TITLE.to_string(), DESCRIPTION.to_string()),
        SafeNoteRecord::new(TITLE.to_string(), "?".to_string()),
        SafeNoteRecord::new("".to_string(), DESCRIPTION.to_string()),
    ]);
    assert_eq!(
        decrypt_safe_note_file("hunter2", &file),
        Err(Error::Base64DecodeFail)
    );
    let file = SafeNoteFile::new(vec![
        SafeNoteRecord::new("".to_string(), "?".to_string()),
    ]);
    assert_eq!(
        decrypt_safe_note_file("hunter2", &file),
        Err(Error::DecryptionFail)
    );
}

#[test]
fn records_become_passages_numbered_from_zero() {
    let file = SafeNoteFile::new(vec![
        SafeNoteRecord::new("first".to_string(), "one".to_string()),
        SafeNoteRecord::new("second".to_string(), "two".to_string()),
        SafeNoteRecord::new("third".to_string(), "three".to_string()),
    ]);
    assert_eq!(
        file.records()[1].into_passage(),
        Passage::new(0, "second".to_string(), "two".to_string())
    );
    assert_eq!(
        file.into_passages(),
        vec![
            Passage::new(0, "first".to_string(), "one".to_string()),
            Passage::new(1, "second".to_string(), "two".to_string()),
            Passage::new(2, "third".to_string(), "three".to_string()),
        ]
    );
    let mut doc = file.into_plaintext();
    assert_eq!(doc.num_passages(), 3);
    assert_eq!(doc.num_images(), 0);
    assert_eq!(doc.id_of_passage(2), Some(2));
    doc.insert_new_passage(0, "fourth".to_string());
    assert_eq!(doc.id_of_passage(0), Some(3));
    assert_eq!(file.clone(), file);
}

#[test]
fn imported_note_round_trips_in_the_native_format() {
    let file = SafeNoteFile::new(vec![SafeNoteRecord::new(
        TITLE.to_string(),
        DESCRIPTION.to_string(),
    )]);
    let doc = decrypt_safe_note_file("hunter2", &file)
        .unwrap()
        .into_plaintext();
    let record = doc.encrypt("new password");
    let back = PlainText::decrypt("new password", &record).unwrap();
    assert_eq!(back, doc);
    assert_eq!(back.title_of_passage(0), Some("Groceries".to_string()));
}

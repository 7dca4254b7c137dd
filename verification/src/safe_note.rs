//! Import of notes that another product exported.
//!
//! An export holds records of a title and a description. Each of the two is
//! base64 text of a blob: eight bytes of header, eight bytes of salt, then
//! an AES-256-CBC ciphertext with PKCS#7 padding. Key and initialisation
//! vector come from the password and the salt by repeated SHA-256:
//! `h0 = SHA256(password + salt)`, `h1 = SHA256(h0 + password + salt)`, and
//! so on until 48 bytes are there; the first 32 are the key, the next 16 the
//! vector. This scheme has nothing in common with the key derivation of
//! the note store itself.

use crate::codec::append_bytes;
use crate::data_structures::{passage_views, Passage, PassageView, PlainText, PlainTextView};
use crate::encode::{base64_data, base64_decode_slice, text_from_utf8, utf8_text};
use crate::error::Error;
use crate::primitives::{aes256_cbc_decrypt, aes256_cbc_decrypted, sha256, sha256_digest};
use vstd::prelude::*;
use vstd::slice::*;
use vstd::string::*;
use vstd::utf8::*;

verus! {

/// What a [`SafeNoteRecord`] stands for.
#[verifier::ext_equal]
pub struct SafeNoteRecordView {
    pub title: Seq<char>,
    pub description: Seq<char>,
}

/// One record of an export: a title and a description, both encrypted in a
/// file as it was exported, both plain once the file was decrypted.
#[derive(Debug, PartialEq, Eq)]
pub struct SafeNoteRecord {
    title: String,
    description: String,
}

/// An export: its records in order.
#[derive(Debug, PartialEq, Eq)]
pub struct SafeNoteFile {
    records: Vec<SafeNoteRecord>,
}

/// What the records stand for, in the same order.
pub open spec fn record_views(records: Seq<SafeNoteRecord>) -> Seq<SafeNoteRecordView> {
    Seq::new(records.len(), |i: int| records[i]@)
}

/// The passages that the records become: title and description as title
/// and text, numbered by position.
pub open spec fn records_as_passages(records: Seq<SafeNoteRecordView>) -> Seq<PassageView> {
    Seq::new(
        records.len(),
        |i: int|
            PassageView {
                id: i as nat,
                title: records[i].title,
                content: records[i].description,
            },
    )
}

/// The `n`-th hash of the chain: `h0 = SHA256(password + salt)`, and each
/// further one the hash of its predecessor, the password and the salt.
pub open spec fn legacy_hash(password: Seq<u8>, salt: Seq<u8>, n: nat) -> Seq<u8>
    decreases n,
{
    if n == 0 {
        sha256(password + salt)
    } else {
        sha256(legacy_hash(password, salt, (n - 1) as nat) + password + salt)
    }
}

/// The 48 bytes of key material: the first two hashes of the chain, which
/// are 32 bytes each, cut to 48.
pub open spec fn legacy_key_material(password: Seq<u8>, salt: Seq<u8>) -> Seq<u8> {
    (legacy_hash(password, salt, 0) + legacy_hash(password, salt, 1)).take(48)
}

/// What decrypting one exported field gives, the field given as the bytes
/// of its base64 text.
///
/// In this order: text that is not base64 gives `Base64DecodeFail`; a blob
/// of fewer than 16 bytes, or a ciphertext whose length or padding is
/// wrong, gives `DecryptionFail`; a plaintext that is not UTF-8 gives
/// `InvalidUTF8`; else the plaintext comes back as text.
pub open spec fn legacy_plaintext(password: Seq<char>, field: Seq<u8>) -> Result<
    Seq<char>,
    Error,
> {
    match base64_data(field) {
        None => Err(Error::Base64DecodeFail),
        Some(blob) => {
            if blob.len() < 16 {
                Err(Error::DecryptionFail)
            } else {
                let material = legacy_key_material(
                    encode_utf8(password),
                    blob.subrange(8, 16),
                );
                match aes256_cbc_decrypted(material.take(32), material.skip(32), blob.skip(16)) {
                    None => Err(Error::DecryptionFail),
                    Some(plaintext) => utf8_text(plaintext),
                }
            }
        },
    }
}

/// What decrypting the records from place `i` on gives: for each record
/// the title, then the description; the first field that fails decides the
/// error.
pub open spec fn legacy_records(password: Seq<char>, records: Seq<SafeNoteRecordView>, i: int)
    -> Result<Seq<SafeNoteRecordView>, Error>
    decreases records.len() - i,
{
    if i < 0 || i >= records.len() {
        Ok(Seq::empty())
    } else {
        match legacy_plaintext(password, encode_utf8(records[i].title)) {
            Err(e) => Err(e),
            Ok(title) => match legacy_plaintext(password, encode_utf8(records[i].description)) {
                Err(e) => Err(e),
                Ok(description) => match legacy_records(password, records, i + 1) {
                    Err(e) => Err(e),
                    Ok(rest) => Ok(seq![SafeNoteRecordView { title, description }] + rest),
                },
            },
        }
    }
}

/// Puts already decrypted records in front of what decrypting the rest
/// gives.
pub open spec fn records_then(
    done: Seq<SafeNoteRecordView>,
    rest: Result<Seq<SafeNoteRecordView>, Error>,
) -> Result<Seq<SafeNoteRecordView>, Error> {
    match rest {
        Err(e) => Err(e),
        Ok(more) => Ok(done + more),
    }
}

impl View for SafeNoteRecord {
    type V = SafeNoteRecordView;

    closed spec fn view(&self) -> SafeNoteRecordView {
        SafeNoteRecordView { title: self.title@, description: self.description@ }
    }
}

impl View for SafeNoteFile {
    type V = Seq<SafeNoteRecordView>;

    closed spec fn view(&self) -> Seq<SafeNoteRecordView> {
        record_views(self.records@)
    }
}

impl Clone for SafeNoteRecord {
    fn clone(&self) -> (copy: Self)
        ensures
            copy == *self,
    {
        SafeNoteRecord { title: self.title.clone(), description: self.description.clone() }
    }
}

impl Clone for SafeNoteFile {
    fn clone(&self) -> (copy: Self)
        ensures
            copy@ == self@,
    {
        let mut records: Vec<SafeNoteRecord> = Vec::new();
        let mut i: usize = 0;
        while i < self.records.len()
            invariant
                i <= self.records@.len(),
                records@ == self.records@.take(i as int),
            decreases self.records@.len() - i,
        {
            records.push(self.records[i].clone());
            assert(records@ =~= self.records@.take(i + 1));
            i += 1;
        }
        assert(records@ =~= self.records@);
        SafeNoteFile { records }
    }
}

impl SafeNoteRecord {
    /// A record with the given title and description.
    pub fn new(title: String, description: String) -> (record: Self)
        ensures
            record@ == (SafeNoteRecordView { title: title@, description: description@ }),
    {
        Self { title, description }
    }

    /// The record's title.
    pub fn title(&self) -> (title: &String)
        ensures
            title@ == self@.title,
    {
        &self.title
    }

    /// The record's description.
    pub fn description(&self) -> (description: &String)
        ensures
            description@ == self@.description,
    {
        &self.description
    }

    /// The record as a passage with the identifier 0: the title as title,
    /// the description as text.
    pub fn into_passage(&self) -> (passage: Passage)
        ensures
            passage@ == (PassageView {
                id: 0,
                title: self@.title,
                content: self@.description,
            }),
    {
        Passage::new(0, self.title.clone(), self.description.clone())
    }
}

impl SafeNoteFile {
    /// An export with the given records.
    pub fn new(records: Vec<SafeNoteRecord>) -> (file: Self)
        ensures
            file@ == record_views(records@),
    {
        Self { records }
    }

    /// The records, in order.
    pub fn records(&self) -> (records: &Vec<SafeNoteRecord>)
        ensures
            record_views(records@) == self@,
    {
        &self.records
    }

    /// The records as passages, in order and numbered by position.
    pub fn into_passages(&self) -> (passages: Vec<Passage>)
        ensures
            passage_views(passages@) == records_as_passages(self@),
    {
        let mut passages: Vec<Passage> = Vec::new();
        let mut i: usize = 0;
        while i < self.records.len()
            invariant
                i <= self.records@.len(),
                passage_views(passages@) == records_as_passages(self@).take(i as int),
            decreases self.records@.len() - i,
        {
            let record: &SafeNoteRecord = &self.records[i];
            let passage: Passage = Passage::new(
                i,
                record.title.clone(),
                record.description.clone(),
            );
            proof {
                let all = records_as_passages(self@);
                assert(passage_views(passages@.push(passage)) =~= all.take(i as int).push(
                    all[i as int],
                ));
                assert(all.take(i + 1) =~= all.take(i as int).push(all[i as int]));
            }
            passages.push(passage);
            i += 1;
        }
        assert(records_as_passages(self@).take(i as int) =~= records_as_passages(self@));
        passages
    }

    /// The records as a note without images: one passage for each record,
    /// in order and numbered by position.
    pub fn into_plaintext(&self) -> (doc: PlainText)
        ensures
            doc@ == (PlainTextView {
                next_id: self@.len(),
                passages: records_as_passages(self@),
                images: Seq::empty(),
            }),
            doc@.well_formed(),
    {
        PlainText::from_passages(self.into_passages())
    }
}

/// Derives the 48 bytes of key material from the password and the salt.
pub fn legacy_derive(password: &[u8], salt: &[u8]) -> (material: Vec<u8>)
    ensures
        material@ == legacy_key_material(password@, salt@),
        material@.len() == 48,
{
    let mut hashes: Vec<u8> = Vec::new();
    let mut current: Vec<u8> = Vec::new();
    let mut rounds: usize = 0;
    while hashes.len() < 48
        invariant
            rounds <= 2,
            hashes@.len() == 32 * rounds,
            rounds == 0 ==> current@.len() == 0,
            rounds == 1 ==> current@ == legacy_hash(password@, salt@, 0) && hashes@ == current@,
            rounds == 2 ==> hashes@ == legacy_hash(password@, salt@, 0) + legacy_hash(
                password@,
                salt@,
                1,
            ),
        decreases 2 - rounds,
    {
        let mut input: Vec<u8> = Vec::new();
        append_bytes(&mut input, current.as_slice());
        append_bytes(&mut input, password);
        append_bytes(&mut input, salt);
        proof {
            if rounds == 0 {
                assert(input@ =~= password@ + salt@);
            } else {
                assert(input@ =~= legacy_hash(password@, salt@, 0) + password@ + salt@);
            }
        }
        current = sha256_digest(input.as_slice());
        append_bytes(&mut hashes, current.as_slice());
        rounds = rounds + 1;
    }
    hashes.truncate(48);
    hashes
}

/// Decrypts one exported field.
///
/// The outcome is the one that [`legacy_plaintext`] states.
pub fn decrypt_safe_notes_ciphertext(password: &str, ciphertext: &str) -> (res: Result<
    String,
    Error,
>)
    ensures
        match res {
            Ok(text) => legacy_plaintext(password@, encode_utf8(ciphertext@)) == Ok::<
                Seq<char>,
                Error,
            >(text@),
            Err(e) => legacy_plaintext(password@, encode_utf8(ciphertext@)) == Err::<
                Seq<char>,
                Error,
            >(e),
        },
{
    let blob: Vec<u8> = match base64_decode_slice(ciphertext.as_bytes()) {
        Ok(blob) => blob,
        Err(e) => {
            return Err(e);
        },
    };
    if blob.len() < 16 {
        return Err(Error::DecryptionFail);
    }
    let salt: &[u8] = slice_subrange(blob.as_slice(), 8, 16);
    let body: &[u8] = slice_subrange(blob.as_slice(), 16, blob.len());
    let material: Vec<u8> = legacy_derive(password.as_bytes(), salt);
    let key: &[u8] = slice_subrange(material.as_slice(), 0, 32);
    let iv: &[u8] = slice_subrange(material.as_slice(), 32, 48);
    proof {
        assert(body@ =~= blob@.skip(16));
        assert(key@ =~= material@.take(32));
        assert(iv@ =~= material@.skip(32));
    }
    match aes256_cbc_decrypt(key, iv, body) {
        Ok(plaintext) => text_from_utf8(plaintext),
        Err(_) => Err(Error::DecryptionFail),
    }
}

/// Decrypts every field of an export.
///
/// Succeeds with the decrypted records in order exactly where every field
/// decrypts; else fails with the error of the first field that does not,
/// titles before descriptions. Nothing is imported in part.
pub fn decrypt_safe_note_file(password: &str, file: &SafeNoteFile) -> (res: Result<
    SafeNoteFile,
    Error,
>)
    ensures
        match res {
            Ok(plain) => legacy_records(password@, file@, 0) == Ok::<
                Seq<SafeNoteRecordView>,
                Error,
            >(plain@),
            Err(e) => legacy_records(password@, file@, 0) == Err::<
                Seq<SafeNoteRecordView>,
                Error,
            >(e),
        },
{
    let mut plain: Vec<SafeNoteRecord> = Vec::new();
    let mut i: usize = 0;
    proof {
        let all = legacy_records(password@, file@, 0);
        if all is Ok {
            assert(record_views(plain@) + all->Ok_0 =~= all->Ok_0);
        }
    }
    while i < file.records.len()
        invariant
            i <= file.records@.len(),
            legacy_records(password@, file@, 0) == records_then(
                record_views(plain@),
                legacy_records(password@, file@, i as int),
            ),
        decreases file.records@.len() - i,
    {
        let ghost done = record_views(plain@);
        let record: &SafeNoteRecord = &file.records[i];
        let title: String = match decrypt_safe_notes_ciphertext(password, record.title.as_str()) {
            Ok(title) => title,
            Err(e) => {
                return Err(e);
            },
        };
        let description: String = match decrypt_safe_notes_ciphertext(
            password,
            record.description.as_str(),
        ) {
            Ok(description) => description,
            Err(e) => {
                return Err(e);
            },
        };
        let decrypted: SafeNoteRecord = SafeNoteRecord { title, description };
        proof {
            let more = legacy_records(password@, file@, i + 1);
            assert(record_views(plain@.push(decrypted)) =~= done.push(decrypted@));
            if more is Ok {
                assert(done + (seq![decrypted@] + more->Ok_0) =~= done.push(decrypted@)
                    + more->Ok_0);
            }
        }
        plain.push(decrypted);
        i += 1;
    }
    proof {
        assert(record_views(plain@) + Seq::<SafeNoteRecordView>::empty() =~= record_views(
            plain@,
        ));
    }
    Ok(SafeNoteFile { records: plain })
}

} // verus!

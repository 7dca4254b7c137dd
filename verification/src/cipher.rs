//! The authenticated cipher: a payload under a password.
//!
//! The key is derived from the password with PBKDF2 (HMAC-SHA256, a fixed
//! salt, 100 rounds, 128 bits). A payload is encrypted with AES-128 in CBC
//! mode with PKCS#7 padding under a fresh initialisation vector, and the
//! ciphertext alone is tagged with HMAC-SHA256 under the same key. A record
//! is three base64 fields: vector, ciphertext, tag. On opening, the tag is
//! checked before anything is decrypted.
//!
//! The fixed salt and the low round count are weak. They are what existing
//! notes were written with, and are kept so that those notes still open.

use crate::codec::{
    base64_bytes, decode_payload, find_byte, first_index, lemma_first_index_at, payload_bytes,
};
use crate::data_structures::{PlainText, PlainTextView};
use crate::encode::{base64_data, base64_decode_slice, base64_encode, base64_sound, base64_text};
use crate::error::Error;
use crate::primitives::{
    aes128_cbc_decrypt, aes128_cbc_decrypted, aes128_cbc_encrypt, aes128_cbc_encrypted, hmac_sha256,
    hmac_sha256_tag, hmac_sha256_verify, pbkdf2_hmac_sha256, pbkdf2_hmac_sha256_128, random_block,
};
use crate::round_trip::{all_symbols, lemma_base64_bytes, lemma_utf8_of_ascii, lemma_utf8_of_concat};
use vstd::prelude::*;
use vstd::slice::*;
use vstd::string::*;
use vstd::utf8::*;

verus! {

/// The number of PBKDF2 rounds.
pub const KDF_ROUNDS: u32 = 100;

/// The salt of the key derivation: the bytes of `safe_write`.
pub const KDF_SALT: [u8; 10] = [0x73, 0x61, 0x66, 0x65, 0x5f, 0x77, 0x72, 0x69, 0x74, 0x65];

/// The 16-byte key that belongs to `password`.
pub open spec fn derived_key(password: Seq<char>) -> Seq<u8> {
    pbkdf2_hmac_sha256(encode_utf8(password), KDF_SALT@, KDF_ROUNDS, 16)
}

/// What opening a record gives, the three fields given as the bytes of
/// their base64 text.
///
/// In this order: a field that is not base64 gives `Base64DecodeFail`; a tag
/// that is not the HMAC-SHA256 of the ciphertext under the password's key
/// gives `MacFail`; a vector that is not 16 bytes long, or a ciphertext
/// whose length or padding is wrong, gives `DecryptionFail`; else the
/// payload comes back.
pub open spec fn decrypted_payload(
    password: Seq<char>,
    iv: Seq<u8>,
    data: Seq<u8>,
    mac: Seq<u8>,
) -> Result<Seq<u8>, Error> {
    match (base64_data(iv), base64_data(data), base64_data(mac)) {
        (Some(vector), Some(ciphertext), Some(tag)) => {
            let key = derived_key(password);
            if tag != hmac_sha256(key, ciphertext) {
                Err(Error::MacFail)
            } else if vector.len() != 16 {
                Err(Error::DecryptionFail)
            } else {
                match aes128_cbc_decrypted(key, vector, ciphertext) {
                    None => Err(Error::DecryptionFail),
                    Some(payload) => Ok(payload),
                }
            }
        },
        _ => Err(Error::Base64DecodeFail),
    }
}

/// What opening a record and reading its payload gives.
pub open spec fn decrypted_note(password: Seq<char>, iv: Seq<u8>, data: Seq<u8>, mac: Seq<u8>)
    -> Result<PlainTextView, Error> {
    match decrypted_payload(password, iv, data, mac) {
        Err(e) => Err(e),
        Ok(payload) => decode_payload(payload),
    }
}

/// The byte that separates the fields of a record: a line feed.
pub const FIELD_SEP: u8 = 0x0a;

/// The text of a record: the base64 texts of the vector, the ciphertext
/// and the tag, with a line feed between them.
pub open spec fn record_text(iv: Seq<u8>, ciphertext: Seq<u8>, tag: Seq<u8>) -> Seq<char> {
    base64_text(iv) + seq!['\n'] + base64_text(ciphertext) + seq!['\n'] + base64_text(tag)
}

/// The ciphertext of `payload` under the key of `password` and the vector
/// `iv`.
pub open spec fn sealed_ciphertext(password: Seq<char>, payload: Seq<u8>, iv: Seq<u8>) -> Seq<
    u8,
> {
    aes128_cbc_encrypted(derived_key(password), iv, payload)
}

/// The tag that the key of `password` gives `ciphertext`.
pub open spec fn sealed_tag(password: Seq<char>, ciphertext: Seq<u8>) -> Seq<u8> {
    hmac_sha256(derived_key(password), ciphertext)
}

/// The record that holds `payload` under `password` and the vector `iv`.
pub open spec fn sealed_record(password: Seq<char>, payload: Seq<u8>, iv: Seq<u8>) -> Seq<char> {
    let ciphertext = sealed_ciphertext(password, payload, iv);
    record_text(iv, ciphertext, sealed_tag(password, ciphertext))
}

/// The first three fields of a record, given as the bytes of its text:
/// what stands before the first line feed, between the first and the
/// second, and between the second and the third or the end. `None` where
/// the text holds fewer than two line feeds.
pub open spec fn record_fields(text: Seq<u8>) -> Option<(Seq<u8>, Seq<u8>, Seq<u8>)> {
    let first = first_index(text, FIELD_SEP);
    if first >= text.len() {
        None
    } else {
        let after_first = text.skip(first + 1);
        let second = first_index(after_first, FIELD_SEP);
        if second >= after_first.len() {
            None
        } else {
            let after_second = after_first.skip(second + 1);
            let third = first_index(after_second, FIELD_SEP);
            Some((text.take(first), after_first.take(second), after_second.take(third)))
        }
    }
}

/// What opening the record with the text bytes `text` gives: with fewer
/// than three fields `DecryptionFail`, else what [`decrypted_payload`]
/// makes of the first three.
pub open spec fn opened_payload(password: Seq<char>, text: Seq<u8>) -> Result<Seq<u8>, Error> {
    match record_fields(text) {
        None => Err(Error::DecryptionFail),
        Some((iv, data, mac)) => decrypted_payload(password, iv, data, mac),
    }
}

/// What opening the record with the text bytes `text` and reading its
/// payload gives.
pub open spec fn opened_note(password: Seq<char>, text: Seq<u8>) -> Result<PlainTextView, Error> {
    match opened_payload(password, text) {
        Err(e) => Err(e),
        Ok(payload) => decode_payload(payload),
    }
}

/// `record` is the text that sealing `payload` under `password` with the
/// 16-byte vector `iv` gives.
///
/// Its shape: the ciphertext is the payload's whole blocks of 16 bytes and
/// one more block; the tag is 32 bytes long; the three base64 texts hold
/// base64 symbols only, so the record has exactly three lines, which are
/// those texts, and each decodes to what it was made from.
///
/// How it opens: with `password` the payload comes back; with a password
/// whose key gives the ciphertext another tag the record is refused with
/// `MacFail`, so neither decrypted nor answered with `DecryptionFail`.
pub open spec fn seals(record: Seq<char>, password: Seq<char>, payload: Seq<u8>, iv: Seq<u8>)
    -> bool {
    &&& iv.len() == 16
    &&& record == sealed_record(password, payload, iv)
    &&& sealed_ciphertext(password, payload, iv).len() == 16 * (payload.len() / 16 + 1)
    &&& sealed_tag(password, sealed_ciphertext(password, payload, iv)).len() == 32
    &&& base64_sound(iv)
    &&& base64_sound(sealed_ciphertext(password, payload, iv))
    &&& base64_sound(sealed_tag(password, sealed_ciphertext(password, payload, iv)))
    &&& record_fields(encode_utf8(record)) == Some(
        (
            base64_bytes(iv),
            base64_bytes(sealed_ciphertext(password, payload, iv)),
            base64_bytes(sealed_tag(password, sealed_ciphertext(password, payload, iv))),
        ),
    )
    &&& opened_payload(password, encode_utf8(record)) == Ok::<Seq<u8>, Error>(payload)
    &&& forall|other: Seq<char>|
        sealed_tag(other, sealed_ciphertext(password, payload, iv)) != sealed_tag(
            password,
            sealed_ciphertext(password, payload, iv),
        ) ==> #[trigger] opened_payload(other, encode_utf8(record)) == Err::<Seq<u8>, Error>(
            Error::MacFail,
        )
}

/// The bytes of a record's text are the bytes of its three fields with
/// line feeds between them, and split into those fields again.
pub proof fn lemma_record_fields(iv: Seq<u8>, ciphertext: Seq<u8>, tag: Seq<u8>)
    requires
        base64_sound(iv),
        base64_sound(ciphertext),
        base64_sound(tag),
    ensures
        encode_utf8(record_text(iv, ciphertext, tag)) == base64_bytes(iv) + seq![FIELD_SEP]
            + base64_bytes(ciphertext) + seq![FIELD_SEP] + base64_bytes(tag),
        record_fields(encode_utf8(record_text(iv, ciphertext, tag))) == Some(
            (base64_bytes(iv), base64_bytes(ciphertext), base64_bytes(tag)),
        ),
{
    let f1 = base64_text(iv);
    let f2 = base64_text(ciphertext);
    let f3 = base64_text(tag);
    let feed = seq!['\n'];
    lemma_base64_bytes(iv);
    lemma_base64_bytes(ciphertext);
    lemma_base64_bytes(tag);
    lemma_utf8_of_ascii('\n');
    lemma_utf8_of_concat(f1, feed);
    lemma_utf8_of_concat(f1 + feed, f2);
    lemma_utf8_of_concat(f1 + feed + f2, feed);
    lemma_utf8_of_concat(f1 + feed + f2 + feed, f3);
    lemma_split_joined(base64_bytes(iv), base64_bytes(ciphertext), base64_bytes(tag));
}

/// Three runs of base64 symbols with line feeds between them split into
/// those three runs.
pub proof fn lemma_split_joined(b1: Seq<u8>, b2: Seq<u8>, b3: Seq<u8>)
    requires
        all_symbols(b1),
        all_symbols(b2),
        all_symbols(b3),
    ensures
        record_fields(b1 + seq![FIELD_SEP] + b2 + seq![FIELD_SEP] + b3) == Some((b1, b2, b3)),
{
    let text = b1 + seq![FIELD_SEP] + b2 + seq![FIELD_SEP] + b3;
    assert forall|j: int| 0 <= j < b1.len() implies text[j] != FIELD_SEP by {
        assert(text[j] == b1[j]);
    }
    lemma_first_index_at(text, FIELD_SEP, b1.len() as int);
    let after_first = text.skip(b1.len() as int + 1);
    assert(after_first =~= b2 + seq![FIELD_SEP] + b3);
    assert forall|j: int| 0 <= j < b2.len() implies after_first[j] != FIELD_SEP by {
        assert(after_first[j] == b2[j]);
    }
    lemma_first_index_at(after_first, FIELD_SEP, b2.len() as int);
    let after_second = after_first.skip(b2.len() as int + 1);
    assert(after_second =~= b3);
    assert forall|j: int| 0 <= j < b3.len() implies after_second[j] != FIELD_SEP by {
        assert(after_second[j] == b3[j]);
    }
    lemma_first_index_at(after_second, FIELD_SEP, b3.len() as int);
    assert(text.take(b1.len() as int) =~= b1);
    assert(after_first.take(b2.len() as int) =~= b2);
    assert(after_second.take(b3.len() as int) =~= b3);
}

/// Derives the key that belongs to `password`.
///
/// The key is a function of the password alone: the same password gives
/// the same 16 bytes every time.
pub fn key_derive(password: &str) -> (key: [u8; 16])
    ensures
        key@ == derived_key(password@),
{
    pbkdf2_hmac_sha256_128(password.as_bytes(), KDF_SALT.as_slice(), KDF_ROUNDS)
}

/// Opens a record: checks the tag, then decrypts.
///
/// The outcome is the one that [`decrypted_payload`] states. In particular
/// a record whose tag does not match is refused with `MacFail` and is not
/// decrypted.
pub fn decrypt_payload(password: &str, iv: &[u8], data: &[u8], mac: &[u8]) -> (res: Result<
    Vec<u8>,
    Error,
>)
    ensures
        match res {
            Ok(payload) => decrypted_payload(password@, iv@, data@, mac@) == Ok::<Seq<u8>, Error>(
                payload@,
            ),
            Err(e) => decrypted_payload(password@, iv@, data@, mac@) == Err::<Seq<u8>, Error>(e),
        },
{
    let key: [u8; 16] = key_derive(password);
    let vector: Vec<u8> = match base64_decode_slice(iv) {
        Ok(vector) => vector,
        Err(e) => {
            return Err(e);
        },
    };
    let ciphertext: Vec<u8> = match base64_decode_slice(data) {
        Ok(ciphertext) => ciphertext,
        Err(e) => {
            return Err(e);
        },
    };
    let tag: Vec<u8> = match base64_decode_slice(mac) {
        Ok(tag) => tag,
        Err(e) => {
            return Err(e);
        },
    };
    match hmac_sha256_verify(key.as_slice(), ciphertext.as_slice(), tag.as_slice()) {
        Ok(_) => {},
        Err(_) => {
            return Err(Error::MacFail);
        },
    }
    if vector.len() != 16 {
        return Err(Error::DecryptionFail);
    }
    match aes128_cbc_decrypt(&key, vector.as_slice(), ciphertext.as_slice()) {
        Ok(payload) => Ok(payload),
        Err(_) => Err(Error::DecryptionFail),
    }
}

/// Opens a record and reads the note in it.
///
/// The outcome is the one that [`decrypted_note`] states, the fields taken
/// as the UTF-8 bytes of the three texts.
pub fn decrypt(password: &str, iv: &str, data: &str, mac: &str) -> (res: Result<PlainText, Error>)
    ensures
        match res {
            Ok(doc) => decrypted_note(
                password@,
                encode_utf8(iv@),
                encode_utf8(data@),
                encode_utf8(mac@),
            ) == Ok::<PlainTextView, Error>(doc@) && doc@.well_formed(),
            Err(e) => decrypted_note(
                password@,
                encode_utf8(iv@),
                encode_utf8(data@),
                encode_utf8(mac@),
            ) == Err::<PlainTextView, Error>(e),
        },
{
    decrypt_fields(password, iv.as_bytes(), data.as_bytes(), mac.as_bytes())
}

/// Opens a record, its fields given as bytes, and reads the note in it.
pub fn decrypt_fields(password: &str, iv: &[u8], data: &[u8], mac: &[u8]) -> (res: Result<
    PlainText,
    Error,
>)
    ensures
        match res {
            Ok(doc) => decrypted_note(password@, iv@, data@, mac@) == Ok::<PlainTextView, Error>(
                doc@,
            ) && doc@.well_formed(),
            Err(e) => decrypted_note(password@, iv@, data@, mac@) == Err::<PlainTextView, Error>(
                e,
            ),
        },
{
    match decrypt_payload(password, iv, data, mac) {
        Ok(payload) => PlainText::decode(payload.as_slice()),
        Err(e) => Err(e),
    }
}

/// Splits the text of a record into its first three fields.
///
/// `None` exactly where the text holds fewer than two line feeds.
pub fn split_record<'a>(text: &'a [u8]) -> (fields: Option<(&'a [u8], &'a [u8], &'a [u8])>)
    ensures
        match fields {
            Some(found) => record_fields(text@) == Some((found.0@, found.1@, found.2@)),
            None => record_fields(text@) is None,
        },
{
    let first: usize = find_byte(text, 0, FIELD_SEP);
    assert(text@.skip(0) =~= text@);
    if first >= text.len() {
        return None;
    }
    let second: usize = find_byte(text, first + 1, FIELD_SEP);
    if second >= text.len() {
        return None;
    }
    let third: usize = find_byte(text, second + 1, FIELD_SEP);
    proof {
        let after_first = text@.skip(first + 1);
        let after_second = after_first.skip(second - first);
        assert(after_second =~= text@.skip(second + 1));
        assert(text@.take(first as int) =~= text@.subrange(0, first as int));
        assert(after_first.take(second - first - 1) =~= text@.subrange(
            first + 1,
            second as int,
        ));
        assert(after_second.take(third - second - 1) =~= text@.subrange(
            second + 1,
            third as int,
        ));
    }
    Some(
        (
            slice_subrange(text, 0, first),
            slice_subrange(text, first + 1, second),
            slice_subrange(text, second + 1, third),
        ),
    )
}

/// Seals a payload under a password, with the initialisation vector given.
///
/// The result is the record that [`sealed_record`] states, and it opens as
/// [`seals`] says: with the same password the payload comes back, with a
/// password of another tag it is refused with `MacFail`.
pub fn encrypt_payload(password: &str, payload: &[u8], iv: &[u8; 16]) -> (record: String)
    ensures
        seals(record@, password@, payload@, iv@),
{
    let key: [u8; 16] = key_derive(password);
    let ciphertext: Vec<u8> = aes128_cbc_encrypt(&key, iv, payload);
    let tag: Vec<u8> = hmac_sha256_tag(key.as_slice(), ciphertext.as_slice());
    let mut record: String = base64_encode(iv.as_slice());
    let ciphertext_text: String = base64_encode(ciphertext.as_slice());
    let tag_text: String = base64_encode(tag.as_slice());
    proof {
        reveal_strlit("\n");
        assert("\n"@ =~= seq!['\n']);
        lemma_record_fields(iv@, ciphertext@, tag@);
        lemma_base64_bytes(iv@);
        lemma_base64_bytes(ciphertext@);
        lemma_base64_bytes(tag@);
    }
    record.append("\n");
    record.append(ciphertext_text.as_str());
    record.append("\n");
    record.append(tag_text.as_str());
    record
}

/// Seals a note under a password, with the initialisation vector given.
///
/// The result is the record of the note's payload, and it opens as
/// [`seals`] says. Opening it with the same password and reading the
/// payload gives the note back, numbered anew, for every note that
/// [`PlainTextView::reads_back`] allows.
pub fn encrypt_with_iv(password: &str, data: &PlainText, iv: &[u8; 16]) -> (record: String)
    ensures
        seals(record@, password@, payload_bytes(data@), iv@),
        data@.reads_back() ==> opened_note(password@, encode_utf8(record@)) == Ok::<
            PlainTextView,
            Error,
        >(data@.renumbered()),
{
    let payload: Vec<u8> = data.encode();
    encrypt_payload(password, payload.as_slice(), iv)
}

/// Where initialisation vectors come from. Nothing is asked of the blocks
/// but their length: what is promised of a record holds whatever vector it
/// was sealed with. A source that repeats itself makes records that say
/// more about their payloads than they should, so outside of tests the
/// source is [`OsRandom`].
pub trait RandomSource {
    /// The next 16 bytes of the source.
    fn next_block(&mut self) -> [u8; 16];
}

/// The random source of the operating system.
pub struct OsRandom;

impl RandomSource for OsRandom {
    fn next_block(&mut self) -> [u8; 16] {
        random_block()
    }
}

/// Seals a note under a password, with the next block of `source` as the
/// initialisation vector.
///
/// Whatever vector was drawn, the result is the record of the note's
/// payload under it, and what [`encrypt_with_iv`] promises of opening the
/// record holds.
pub fn encrypt_with_source<R: RandomSource>(
    password: &str,
    data: &PlainText,
    source: &mut R,
) -> (record: String)
    ensures
        exists|iv: Seq<u8>| #[trigger] seals(record@, password@, payload_bytes(data@), iv),
        data@.reads_back() ==> opened_note(password@, encode_utf8(record@)) == Ok::<
            PlainTextView,
            Error,
        >(data@.renumbered()),
{
    let iv: [u8; 16] = source.next_block();
    let record: String = encrypt_with_iv(password, data, &iv);
    assert(seals(record@, password@, payload_bytes(data@), iv@));
    record
}

/// Seals a note under a password, with a fresh random initialisation
/// vector from the operating system.
///
/// Whatever vector was drawn, the result is the record of the note's
/// payload under it, and what [`encrypt_with_iv`] promises of opening the
/// record holds.
pub fn encrypt(password: &str, data: &PlainText) -> (record: String)
    ensures
        exists|iv: Seq<u8>| #[trigger] seals(record@, password@, payload_bytes(data@), iv),
        data@.reads_back() ==> opened_note(password@, encode_utf8(record@)) == Ok::<
            PlainTextView,
            Error,
        >(data@.renumbered()),
{
    let mut source = OsRandom;
    encrypt_with_source(password, data, &mut source)
}

/// Opens the record with the given text: checks the tag, then decrypts.
///
/// The outcome is the one that [`opened_payload`] states.
pub fn open_payload(password: &str, text: &[u8]) -> (res: Result<Vec<u8>, Error>)
    ensures
        match res {
            Ok(payload) => opened_payload(password@, text@) == Ok::<Seq<u8>, Error>(payload@),
            Err(e) => opened_payload(password@, text@) == Err::<Seq<u8>, Error>(e),
        },
{
    match split_record(text) {
        Some(fields) => decrypt_payload(password, fields.0, fields.1, fields.2),
        None => Err(Error::DecryptionFail),
    }
}

} // verus!

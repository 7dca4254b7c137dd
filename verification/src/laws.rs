//! What holds of the library as a whole, stated over the specification
//! functions that its contracts use.

use crate::cipher::{
    decrypted_payload, derived_key, opened_note, opened_payload, record_fields, sealed_tag, seals,
};
use crate::codec::{
    decode_entry, decode_image_list, decode_image_section, decode_passage_list, decode_payload,
    first_index, image_section, images_from, le32_bytes, le32_value, lemma_first_index,
    lemma_first_index_at, lemma_le32_bytes_of_value, lemma_low_32, low_32, payload_bytes,
    payload_images, payload_text, text_list, two_to_32, ENTRY_SEP, IMAGE_SEP, LEGACY_SUFFIX,
    LIST_END, TITLE_SEP,
};
use crate::data_structures::{PassageView, PlainTextView};
use crate::encode::base64_data;
use crate::error::Error;
use crate::round_trip::{
    lemma_ascii_is_utf8, lemma_payload_reads_back, lemma_section_reads_back, sound_passages,
};
use vstd::prelude::*;
use vstd::utf8::*;

verus! {

/// The ciphertext that the record with the text bytes `text` holds in its
/// second field.
pub open spec fn record_ciphertext(text: Seq<u8>) -> Seq<u8> {
    match record_fields(text) {
        Some((_, data, _)) => match base64_data(data) {
            Some(ciphertext) => ciphertext,
            None => Seq::empty(),
        },
        None => Seq::empty(),
    }
}

/// The empty note reads back from its payload as the empty note.
pub proof fn law_empty_note_reads_back()
    ensures
        payload_bytes(PlainTextView::empty()) == LEGACY_SUFFIX@,
        decode_payload(payload_bytes(PlainTextView::empty())) == Ok::<PlainTextView, Error>(
            PlainTextView::empty(),
        ),
{
    let payload = payload_bytes(PlainTextView::empty());
    assert(payload =~= LEGACY_SUFFIX@);
    lemma_ascii_is_utf8(payload);
    lemma_first_index_at(payload, IMAGE_SEP, payload.len() as int);
    assert(payload.subrange(0, payload.len() as int) =~= payload);
    lemma_first_index_at(payload, LIST_END, 0);
}

/// A payload reads back as the note it was written from: the same titles,
/// texts and images in the same order, the passages numbered by position.
/// This holds for every note that [`PlainTextView::reads_back`] allows,
/// given that the base64 text of its titles and passage texts is sound,
/// which [`crate::encode::base64_encode`] ensures of whatever it encodes.
pub proof fn law_note_reads_back(doc: PlainTextView)
    requires
        sound_passages(doc.passages),
        doc.reads_back(),
    ensures
        decode_payload(payload_bytes(doc)) == Ok::<PlainTextView, Error>(doc.renumbered()),
{
    lemma_payload_reads_back(doc);
}

/// A note with `n` images reads back from its payload with the same `n`
/// images: the same bytes in the same order. This holds for the notes that
/// [`law_note_reads_back`] speaks of.
pub proof fn law_images_read_back(doc: PlainTextView)
    requires
        sound_passages(doc.passages),
        doc.reads_back(),
    ensures
        decode_payload(payload_bytes(doc)) matches Ok(back) && back.images == doc.images,
{
    lemma_payload_reads_back(doc);
}

/// An image section reads back as the images it was written from, whatever
/// their bytes, as long as the number of images and the length of each fit
/// in 32 bits.
pub proof fn law_image_section_reads_back(images: Seq<Seq<u8>>)
    requires
        images.len() < two_to_32(),
        forall|k: int| 0 <= k < images.len() ==> (#[trigger] images[k]).len() < two_to_32(),
    ensures
        decode_image_section(image_section(images)) == Some(images),
{
    lemma_section_reads_back(images);
}

/// Two keys derived from the same password are the same key.
pub proof fn law_same_password_same_key(first: &str, second: &str, key: [u8; 16], again: [u8; 16])
    requires
        first@ == second@,
        key@ == derived_key(first@),
        again@ == derived_key(second@),
    ensures
        key == again,
{
    assert(key@ =~= again@);
}

/// A record that opens under one password is refused with `MacFail` under
/// every password whose key gives its ciphertext another tag: it is not
/// decrypted, and the answer is neither a payload nor `DecryptionFail`.
pub proof fn law_other_tag_is_refused(password: Seq<char>, other: Seq<char>, text: Seq<u8>)
    requires
        opened_payload(password, text) is Ok,
        sealed_tag(other, record_ciphertext(text)) != sealed_tag(
            password,
            record_ciphertext(text),
        ),
    ensures
        opened_payload(other, text) == Err::<Seq<u8>, Error>(Error::MacFail),
        opened_note(other, text) == Err::<PlainTextView, Error>(Error::MacFail),
{
}

/// A record that opens is refused with `MacFail` once its ciphertext field
/// is replaced by base64 text of a ciphertext with another tag.
pub proof fn law_altered_ciphertext_is_refused(
    password: Seq<char>,
    iv: Seq<u8>,
    data: Seq<u8>,
    mac: Seq<u8>,
    altered: Seq<u8>,
)
    requires
        decrypted_payload(password, iv, data, mac) is Ok,
        base64_data(altered) is Some,
        sealed_tag(password, base64_data(altered)->0) != sealed_tag(
            password,
            base64_data(data)->0,
        ),
    ensures
        decrypted_payload(password, iv, altered, mac) == Err::<Seq<u8>, Error>(Error::MacFail),
{
}

/// A record that seals the payload of a note opens, under the password it
/// was sealed with, as that note, numbered anew. This holds for every note
/// that [`PlainTextView::reads_back`] allows, given that the base64 text
/// of its titles and passage texts is sound.
pub proof fn law_sealed_note_opens(
    record: Seq<char>,
    password: Seq<char>,
    doc: PlainTextView,
    iv: Seq<u8>,
)
    requires
        seals(record, password, payload_bytes(doc), iv),
        sound_passages(doc.passages),
        doc.reads_back(),
    ensures
        opened_note(password, encode_utf8(record)) == Ok::<PlainTextView, Error>(
            doc.renumbered(),
        ),
{
    lemma_payload_reads_back(doc);
}

/// The entries of a list: the runs of bytes between its `|` bytes. A list
/// without `|` is one entry, also when it is empty.
pub open spec fn list_entries(list: Seq<u8>) -> Seq<Seq<u8>>
    decreases list.len(),
{
    let bar = first_index(list, ENTRY_SEP);
    if 0 <= bar < list.len() {
        seq![list.subrange(0, bar)] + list_entries(list.skip(bar + 1))
    } else {
        seq![list]
    }
}

/// Whether the entry holds no `-`.
pub open spec fn lacks_dash(entry: Seq<u8>) -> bool {
    first_index(entry, TITLE_SEP) >= entry.len()
}

/// A list with an entry that holds no `-` is never read in part: reading it
/// fails. Where every entry before that one reads, it fails with
/// `InvalidPlaintextFormat`.
pub proof fn law_entry_without_dash_is_refused(list: Seq<u8>, id: nat, k: int)
    requires
        0 <= k < list_entries(list).len(),
        lacks_dash(list_entries(list)[k]),
    ensures
        decode_passage_list(list, id) is Err,
        (forall|j: int| 0 <= j < k ==> decode_entry(#[trigger] list_entries(list)[j]) is Ok)
            ==> decode_passage_list(list, id) == Err::<Seq<PassageView>, Error>(
            Error::InvalidPlaintextFormat,
        ),
    decreases list.len(),
{
    let bar = first_index(list, ENTRY_SEP);
    lemma_first_index(list, ENTRY_SEP);
    let entries = list_entries(list);
    if 0 <= bar < list.len() {
        let rest = list_entries(list.skip(bar + 1));
        assert(entries[0] == list.subrange(0, bar));
        if k > 0 {
            assert(entries[k] == rest[k - 1]);
            law_entry_without_dash_is_refused(list.skip(bar + 1), id + 1, k - 1);
            if forall|j: int| 0 <= j < k ==> decode_entry(#[trigger] entries[j]) is Ok {
                assert forall|j: int| 0 <= j < k - 1 implies decode_entry(
                    #[trigger] rest[j],
                ) is Ok by {
                    assert(entries[j + 1] == rest[j]);
                }
                assert(decode_entry(entries[0]) is Ok);
            }
        }
    } else {
        assert(list.subrange(0, bar) =~= list);
    }
}

/// A payload whose list of entries has an entry without `-` is never read
/// in part: reading it fails. It fails with `InvalidPlaintextFormat` where
/// nothing else is wrong before that entry: the text segment is valid
/// UTF-8, the image section is whole, and every entry before that one
/// reads.
pub proof fn law_payload_with_entry_without_dash_is_refused(payload: Seq<u8>, k: int)
    requires
        0 < first_index(payload_text(payload), LIST_END) < payload_text(payload).len(),
        0 <= k < list_entries(text_list(payload_text(payload))).len(),
        lacks_dash(list_entries(text_list(payload_text(payload)))[k]),
    ensures
        decode_payload(payload) is Err,
        valid_utf8(payload_text(payload)) && payload_images(payload) is Some && (forall|j: int|
            0 <= j < k ==> decode_entry(
                #[trigger] list_entries(text_list(payload_text(payload)))[j],
            ) is Ok) ==> decode_payload(payload) == Err::<PlainTextView, Error>(
            Error::InvalidPlaintextFormat,
        ),
{
    law_entry_without_dash_is_refused(text_list(payload_text(payload)), 0, k);
}

/// A list of images with one more image in front is written as that image,
/// then the list.
pub proof fn lemma_images_from_first(first: Seq<u8>, rest: Seq<Seq<u8>>)
    ensures
        images_from(seq![first] + rest, 0) == le32_bytes(low_32(first.len()))
            + first + images_from(rest, 0),
{
    let all = seq![first] + rest;
    assert(all[0] == first);
    lemma_images_from_shift(first, rest, 0);
}

/// The images from place `i + 1` on of a list with one more image in front
/// are written as the images from place `i` on of the list without it.
pub proof fn lemma_images_from_shift(first: Seq<u8>, rest: Seq<Seq<u8>>, i: int)
    requires
        0 <= i,
    ensures
        images_from(seq![first] + rest, i + 1) == images_from(rest, i),
    decreases rest.len() - i,
{
    let all = seq![first] + rest;
    if i < rest.len() {
        assert(all[i + 1] == rest[i]);
        lemma_images_from_shift(first, rest, i + 1);
    }
}

/// Bytes that start with a length, that many bytes, and then something
/// that is written at the front of what follows, start with all three.
pub proof fn lemma_written_in_front(bytes: Seq<u8>, length: int, written: Seq<u8>)
    requires
        0 <= length,
        4 + length <= bytes.len(),
        written.len() <= bytes.len() - 4 - length,
        bytes.skip(4 + length).take(written.len() as int) == written,
    ensures
        bytes.take(4 + length + written.len()) == bytes.take(4) + bytes.subrange(
            4,
            4 + length,
        ) + written,
{
    let tail = bytes.skip(4 + length);
    let all = bytes.take(4) + bytes.subrange(4, 4 + length) + written;
    assert(all.len() == 4 + length + written.len());
    assert forall|k: int| 0 <= k < all.len() implies bytes.take(
        4 + length + written.len(),
    )[k] == all[k] by {
        if k >= 4 + length {
            assert(written[k - 4 - length] == tail.take(written.len() as int)[k - 4 - length]);
            assert(tail[k - 4 - length] == bytes[k]);
        }
    }
    assert(bytes.take(4 + length + written.len()) =~= all);
}

/// The bytes that [`decode_image_list`] reads: the images it gives, written
/// as [`images_from`] writes them, stand at the front of what it was given.
pub proof fn law_images_read_are_held(bytes: Seq<u8>, count: nat)
    ensures
        decode_image_list(bytes, count) matches Some(images) ==> {
            &&& images.len() == count
            &&& forall|i: int| 0 <= i < images.len() ==> (#[trigger] images[i]).len() < two_to_32()
            &&& images_from(images, 0).len() <= bytes.len()
            &&& bytes.take(images_from(images, 0).len() as int) == images_from(images, 0)
        },
    decreases count,
{
    if count == 0 {
        assert(images_from(Seq::<Seq<u8>>::empty(), 0) =~= Seq::<u8>::empty());
        assert(bytes.take(0) =~= Seq::<u8>::empty());
    } else if decode_image_list(bytes, count) is Some {
        let head = bytes.take(4);
        let length = le32_value(head) as int;
        let image = bytes.subrange(4, 4 + length);
        let tail = bytes.skip(4 + length);
        let rest = decode_image_list(tail, (count - 1) as nat)->0;
        let images = seq![image] + rest;
        assert(decode_image_list(bytes, count) == Some(images));
        law_images_read_are_held(tail, (count - 1) as nat);
        let written = images_from(rest, 0);
        assert(image.len() == length);
        assert(length < two_to_32() && le32_bytes(length as nat) == head) by {
            lemma_le32_bytes_of_value(head);
        }
        lemma_low_32(length as nat);
        assert(images_from(images, 0) == head + image + written) by {
            lemma_images_from_first(image, rest);
        }
        assert(bytes.take(4 + length + written.len()) == head + image + written) by {
            lemma_written_in_front(bytes, length, written);
        }
        assert((head + image + written).len() == 4 + length + written.len());
        assert forall|i: int| 0 <= i < images.len() implies (#[trigger] images[i]).len()
            < two_to_32() by {
            if i > 0 {
                assert(images[i] == rest[i - 1]);
            }
        }
    }
}

/// An image section that reads holds its images in full: the section
/// written from the images it gives stands at its front. So a section that
/// announces more bytes than it holds is refused.
pub proof fn law_section_read_is_held(section: Seq<u8>)
    ensures
        decode_image_section(section) matches Some(images) ==> {
            &&& image_section(images).len() <= section.len()
            &&& section.take(image_section(images).len() as int) == image_section(images)
        },
{
    if section.len() >= 4 && decode_image_section(section) is Some {
        let count = le32_value(section.take(4));
        let images = decode_image_list(section.skip(4), count)->0;
        law_images_read_are_held(section.skip(4), count);
        lemma_le32_bytes_of_value(section.take(4));
        lemma_low_32(images.len());
        let written = images_from(images, 0);
        assert(section.skip(4).take(written.len() as int) == written);
        assert(section.take(image_section(images).len() as int) =~= section.take(4)
            + section.skip(4).take(written.len() as int));
    }
}

/// A payload whose text segment is valid UTF-8 and whose image section is
/// cut short is refused with `InvalidImageFormat`, whatever the text
/// segment holds.
pub proof fn law_truncated_images_are_refused(payload: Seq<u8>)
    requires
        valid_utf8(payload_text(payload)),
        payload_images(payload) is None,
    ensures
        decode_payload(payload) == Err::<PlainTextView, Error>(Error::InvalidImageFormat),
{
}

/// A payload with a `0x88` and fewer than four bytes after the first one
/// is refused with `InvalidImageFormat`, provided its text segment is
/// valid UTF-8: an image section that is there has its count. This holds
/// of a payload that ends with its first `0x88` too.
pub proof fn law_section_without_count_is_refused(payload: Seq<u8>)
    requires
        valid_utf8(payload_text(payload)),
        first_index(payload, IMAGE_SEP) < payload.len(),
        payload.len() - first_index(payload, IMAGE_SEP) - 1 < 4,
    ensures
        decode_payload(payload) == Err::<PlainTextView, Error>(Error::InvalidImageFormat),
{
    lemma_first_index(payload, IMAGE_SEP);
}

/// A payload without `0x88` has no images: where it reads, the note has
/// none.
pub proof fn law_no_section_no_images(payload: Seq<u8>)
    requires
        first_index(payload, IMAGE_SEP) >= payload.len(),
    ensures
        decode_payload(payload) matches Ok(doc) ==> doc.images.len() == 0,
{
}

/// An image list whose first image announces more bytes than follow is
/// refused.
pub proof fn law_overlong_image_is_refused(bytes: Seq<u8>, count: nat)
    requires
        count > 0,
        bytes.len() >= 4,
        le32_value(bytes.take(4)) > bytes.len() - 4,
    ensures
        decode_image_list(bytes, count) is None,
{
}

} // verus!

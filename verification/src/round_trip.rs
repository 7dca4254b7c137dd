//! Why a payload that was written reads back as the document it was
//! written from.

use crate::codec::{
    base64_bytes, decode_entry, decode_image_list, decode_image_section, decode_passage_list,
    decode_payload, entry_bytes, first_index, image_section, images_from, le32_bytes,
    lemma_first_index_at, lemma_le32_round_trip, lemma_low_32, passages_from, payload_bytes,
    payload_section, payload_text, text_segment, two_to_32, ENTRY_SEP, IMAGE_SEP, LEGACY_SUFFIX,
    LIST_END, TITLE_SEP,
};
use crate::data_structures::{renumbered_from, PassageView, PlainTextView};
use crate::encode::{
    base64_data, base64_decoded_text, base64_length, base64_sound, base64_text, is_base64_symbol,
};
use crate::error::Error;
use vstd::prelude::*;
use vstd::utf8::*;

verus! {

/// A byte of base64 text: an ASCII letter or digit, `+`, `/` or `=`.
pub open spec fn is_symbol_byte(b: u8) -> bool {
    ||| 0x41 <= b <= 0x5a
    ||| 0x61 <= b <= 0x7a
    ||| 0x30 <= b <= 0x39
    ||| b == 0x2b
    ||| b == 0x2f
    ||| b == 0x3d
}

/// Every byte of `bytes` is a byte of base64 text.
pub open spec fn all_symbols(bytes: Seq<u8>) -> bool {
    forall|i: int| 0 <= i < bytes.len() ==> is_symbol_byte(#[trigger] bytes[i])
}

/// Every byte of `bytes` can stand in a list of entries: a byte of base64
/// text, `-` or `|`.
pub open spec fn all_list_bytes(bytes: Seq<u8>) -> bool {
    forall|i: int|
        0 <= i < bytes.len() ==> is_symbol_byte(#[trigger] bytes[i]) || bytes[i] == TITLE_SEP
            || bytes[i] == ENTRY_SEP
}

/// The base64 text of the passage's title and of its text is made of
/// base64 symbols and decodes to what it was made from.
pub open spec fn sound_passage(passage: PassageView) -> bool {
    &&& base64_sound(encode_utf8(passage.title))
    &&& base64_sound(encode_utf8(passage.content))
}

/// [`sound_passage`] of every passage.
pub open spec fn sound_passages(passages: Seq<PassageView>) -> bool {
    forall|i: int| 0 <= i < passages.len() ==> sound_passage(#[trigger] passages[i])
}

impl PlainTextView {
    /// The documents that a payload can give back: one with images has a
    /// passage, and the number of images and the length of each fit in 32
    /// bits.
    pub open spec fn reads_back(self) -> bool {
        &&& self.passages.len() > 0 || self.images.len() == 0
        &&& self.images.len() < two_to_32()
        &&& forall|i: int|
            0 <= i < self.images.len() ==> (#[trigger] self.images[i]).len() < two_to_32()
    }
}

/// Bytes below `0x80` are valid UTF-8.
pub proof fn lemma_ascii_is_utf8(bytes: Seq<u8>)
    requires
        forall|i: int| 0 <= i < bytes.len() ==> #[trigger] bytes[i] < 0x80,
    ensures
        valid_utf8(bytes),
{
    let chars = Seq::new(bytes.len(), |i: int| bytes[i] as char);
    assert(is_ascii_chars(chars));
    is_ascii_chars_encode_utf8(chars);
    assert(encode_utf8(chars) =~= bytes);
    encode_utf8_valid_utf8(chars);
}

/// The UTF-8 bytes of two texts put together are the bytes of the first
/// followed by the bytes of the second.
pub proof fn lemma_utf8_of_concat(a: Seq<char>, b: Seq<char>)
    ensures
        encode_utf8(a + b) == encode_utf8(a) + encode_utf8(b),
    decreases a.len(),
{
    if a.len() == 0 {
        assert(a + b =~= b);
        assert(encode_utf8(a) + encode_utf8(b) =~= encode_utf8(b));
    } else {
        assert((a + b).drop_first() =~= a.drop_first() + b);
        lemma_utf8_of_concat(a.drop_first(), b);
        assert(encode_utf8(a + b) =~= encode_utf8(a) + encode_utf8(b));
    }
}

/// The UTF-8 bytes of a text of one ASCII character are that character's
/// one byte.
pub proof fn lemma_utf8_of_ascii(c: char)
    requires
        c <= '\u{7f}',
    ensures
        encode_utf8(seq![c]) == seq![c as u8],
{
    let text = seq![c];
    assert(is_ascii_chars(text));
    is_ascii_chars_encode_utf8(text);
    assert(encode_utf8(text) =~= seq![c as u8]);
}

/// The bytes of sound base64 text are base64 symbols, one byte for each
/// symbol, and decode to the data.
pub proof fn lemma_base64_bytes(data: Seq<u8>)
    requires
        base64_sound(data),
    ensures
        all_symbols(base64_bytes(data)),
        base64_bytes(data).len() == base64_length(data.len()),
        base64_data(base64_bytes(data)) == Some(data),
{
    let chars = base64_text(data);
    assert(is_ascii_chars(chars)) by {
        assert forall|i: int| 0 <= i < chars.len() implies '\0' <= #[trigger] chars[i]
            <= '\u{7f}' by {
            assert(is_base64_symbol(chars[i]));
        }
    }
    is_ascii_chars_encode_utf8(chars);
    assert forall|i: int| 0 <= i < base64_bytes(data).len() implies is_symbol_byte(
        #[trigger] base64_bytes(data)[i],
    ) by {
        assert(is_base64_symbol(chars[i]));
        assert(chars[i] as u8 == base64_bytes(data)[i]);
    }
}

/// Text that was written as UTF-8 and then as base64 reads back.
pub proof fn lemma_base64_text_reads_back(text: Seq<char>)
    requires
        base64_sound(encode_utf8(text)),
    ensures
        base64_decoded_text(base64_bytes(encode_utf8(text))) == Ok::<Seq<char>, Error>(text),
        all_symbols(base64_bytes(encode_utf8(text))),
{
    lemma_base64_bytes(encode_utf8(text));
    encode_utf8_valid_utf8(text);
    encode_utf8_decode_utf8(text);
}

/// An entry of a sound passage reads back as its title and text, and holds
/// no `|`.
pub proof fn lemma_entry_reads_back(passage: PassageView)
    requires
        sound_passage(passage),
    ensures
        decode_entry(entry_bytes(passage)) == Ok::<(Seq<char>, Seq<char>), Error>(
            (passage.title, passage.content),
        ),
        all_list_bytes(entry_bytes(passage)),
        forall|i: int|
            0 <= i < entry_bytes(passage).len() ==> #[trigger] entry_bytes(passage)[i]
                != ENTRY_SEP,
        entry_bytes(passage).len() > 0,
{
    let title = base64_bytes(encode_utf8(passage.title));
    let content = base64_bytes(encode_utf8(passage.content));
    let entry = entry_bytes(passage);
    lemma_base64_text_reads_back(passage.title);
    lemma_base64_text_reads_back(passage.content);
    assert forall|i: int| 0 <= i < entry.len() implies (is_symbol_byte(#[trigger] entry[i])
        || entry[i] == TITLE_SEP) by {
        if i < title.len() {
            assert(entry[i] == title[i]);
        } else if i > title.len() {
            assert(entry[i] == content[i - title.len() - 1]);
        }
    }
    assert forall|j: int| 0 <= j < title.len() implies entry[j] != TITLE_SEP by {
        assert(entry[j] == title[j]);
    }
    lemma_first_index_at(entry, TITLE_SEP, title.len() as int);
    assert(entry.subrange(0, title.len() as int) =~= title);
    assert(entry.subrange(title.len() as int + 1, entry.len() as int) =~= content);
}

/// A list of entries of sound passages holds base64 symbols, `-` and `|`
/// only.
pub proof fn lemma_list_bytes(passages: Seq<PassageView>, i: int)
    requires
        sound_passages(passages),
    ensures
        all_list_bytes(passages_from(passages, i)),
    decreases passages.len() - i,
{
    if 0 <= i < passages.len() {
        lemma_entry_reads_back(passages[i]);
        lemma_list_bytes(passages, i + 1);
        let sep: Seq<u8> = if i > 0 {
            seq![ENTRY_SEP]
        } else {
            Seq::empty()
        };
        let entry = entry_bytes(passages[i]);
        let rest = passages_from(passages, i + 1);
        let all = passages_from(passages, i);
        assert forall|k: int| 0 <= k < all.len() implies (is_symbol_byte(#[trigger] all[k])
            || all[k] == TITLE_SEP || all[k] == ENTRY_SEP) by {
            if k < sep.len() {
                assert(all[k] == sep[k]);
            } else if k < sep.len() + entry.len() {
                assert(all[k] == entry[k - sep.len()]);
            } else {
                assert(all[k] == rest[k - sep.len() - entry.len()]);
            }
        }
    }
}

/// The entries of sound passages from place `i` on read back as those
/// passages, numbered from `i` on.
pub proof fn lemma_list_reads_back(passages: Seq<PassageView>, i: int)
    requires
        sound_passages(passages),
        0 <= i < passages.len(),
    ensures
        decode_passage_list(
            entry_bytes(passages[i]) + passages_from(passages, i + 1),
            i as nat,
        ) == Ok::<Seq<PassageView>, Error>(renumbered_from(passages, 0).skip(i)),
    decreases passages.len() - i,
{
    let entry = entry_bytes(passages[i]);
    let rest = passages_from(passages, i + 1);
    let list = entry + rest;
    let numbered = renumbered_from(passages, 0);
    lemma_entry_reads_back(passages[i]);
    assert forall|j: int| 0 <= j < entry.len() implies list[j] != ENTRY_SEP by {
        assert(list[j] == entry[j]);
    }
    if i + 1 < passages.len() {
        let next = entry_bytes(passages[i + 1]) + passages_from(passages, i + 2);
        assert(rest =~= seq![ENTRY_SEP] + next);
        assert(list[entry.len() as int] == ENTRY_SEP);
        lemma_first_index_at(list, ENTRY_SEP, entry.len() as int);
        assert(list.subrange(0, entry.len() as int) =~= entry);
        assert(list.skip(entry.len() as int + 1) =~= next);
        lemma_list_reads_back(passages, i + 1);
        assert(seq![numbered[i]] + numbered.skip(i + 1) =~= numbered.skip(i));
    } else {
        assert(rest =~= Seq::<u8>::empty());
        assert(list =~= entry);
        lemma_first_index_at(list, ENTRY_SEP, entry.len() as int);
        assert(list.subrange(0, entry.len() as int) =~= entry);
        assert(seq![numbered[i]] =~= numbered.skip(i));
    }
}

/// The images from place `i` on, as [`images_from`] writes them, read back.
pub proof fn lemma_images_read_back(images: Seq<Seq<u8>>, i: int)
    requires
        0 <= i <= images.len(),
        forall|k: int| 0 <= k < images.len() ==> (#[trigger] images[k]).len() < two_to_32(),
    ensures
        decode_image_list(images_from(images, i), (images.len() - i) as nat) == Some(
            images.skip(i),
        ),
    decreases images.len() - i,
{
    if i < images.len() {
        let image = images[i];
        let head = le32_bytes(image.len());
        let rest = images_from(images, i + 1);
        let all = images_from(images, i);
        lemma_low_32(image.len());
        lemma_le32_round_trip(image.len());
        assert(all =~= head + image + rest);
        assert(all.take(4) =~= head);
        assert(all.subrange(4, 4 + image.len() as int) =~= image);
        assert(all.skip(4 + image.len() as int) =~= rest);
        lemma_images_read_back(images, i + 1);
        assert(seq![image] + images.skip(i + 1) =~= images.skip(i));
    } else {
        assert(images.skip(i) =~= Seq::<Seq<u8>>::empty());
    }
}

/// An image section reads back as the images it was written from.
pub proof fn lemma_section_reads_back(images: Seq<Seq<u8>>)
    requires
        images.len() < two_to_32(),
        forall|k: int| 0 <= k < images.len() ==> (#[trigger] images[k]).len() < two_to_32(),
    ensures
        decode_image_section(image_section(images)) == Some(images),
{
    let head = le32_bytes(images.len());
    let section = image_section(images);
    lemma_low_32(images.len());
    lemma_le32_round_trip(images.len());
    assert(section == head + images_from(images, 0));
    assert(section.take(4) =~= head);
    assert(section.skip(4) =~= images_from(images, 0));
    lemma_images_read_back(images, 0);
    assert(images.skip(0) =~= images);
}

/// The text segment of sound passages is ASCII, so it is valid UTF-8 and
/// holds no `0x88`; and its first `:` is the one that ends the list of
/// entries.
pub proof fn lemma_text_segment(passages: Seq<PassageView>)
    requires
        sound_passages(passages),
    ensures
        forall|i: int|
            0 <= i < text_segment(passages).len() ==> #[trigger] text_segment(passages)[i] < 0x80,
        valid_utf8(text_segment(passages)),
        first_index(text_segment(passages), LIST_END) == passages_from(passages, 0).len(),
        first_index(text_segment(passages), IMAGE_SEP) == text_segment(passages).len(),
{
    let list = passages_from(passages, 0);
    let text = text_segment(passages);
    lemma_list_bytes(passages, 0);
    assert forall|i: int| 0 <= i < text.len() implies #[trigger] text[i] < 0x80 && (i
        < list.len() ==> text[i] != LIST_END) by {
        if i < list.len() {
            assert(text[i] == list[i]);
        } else {
            assert(text[i] == LEGACY_SUFFIX@[i - list.len()]);
        }
    }
    lemma_ascii_is_utf8(text);
    assert(text[list.len() as int] == LEGACY_SUFFIX@[0]);
    lemma_first_index_at(text, LIST_END, list.len() as int);
    lemma_first_index_at(text, IMAGE_SEP, text.len() as int);
}

/// In the payload of a note with sound passages the text segment stands
/// first, and the first `0x88`, if there is one, right behind it: the
/// payload of a note without images holds none, and that of a note with
/// images holds its first one where the text segment ends.
pub proof fn lemma_payload_parts(doc: PlainTextView)
    requires
        sound_passages(doc.passages),
    ensures
        first_index(payload_bytes(doc), IMAGE_SEP) == text_segment(doc.passages).len(),
        payload_text(payload_bytes(doc)) == text_segment(doc.passages),
        doc.images.len() == 0 ==> payload_section(payload_bytes(doc)) is None,
        doc.images.len() > 0 ==> payload_section(payload_bytes(doc)) == Some(
            image_section(doc.images),
        ),
{
    let text = text_segment(doc.passages);
    let payload = payload_bytes(doc);
    lemma_text_segment(doc.passages);
    assert forall|i: int| 0 <= i < text.len() implies payload[i] != IMAGE_SEP by {
        assert(payload[i] == text[i]);
    }
    lemma_first_index_at(payload, IMAGE_SEP, text.len() as int);
    assert(payload.subrange(0, text.len() as int) =~= text);
    if doc.images.len() > 0 {
        assert(payload.subrange(text.len() as int + 1, payload.len() as int) =~= image_section(
            doc.images,
        ));
    }
}

/// A payload reads back as the document it was written from, numbered
/// anew, provided the base64 text of every title and passage text is
/// sound.
pub proof fn lemma_payload_reads_back(doc: PlainTextView)
    requires
        sound_passages(doc.passages),
        doc.reads_back(),
    ensures
        decode_payload(payload_bytes(doc)) == Ok::<PlainTextView, Error>(doc.renumbered()),
{
    let list = passages_from(doc.passages, 0);
    let text = text_segment(doc.passages);
    lemma_text_segment(doc.passages);
    lemma_payload_parts(doc);
    if doc.images.len() == 0 {
        assert(doc.images =~= Seq::<Seq<u8>>::empty());
    } else {
        lemma_section_reads_back(doc.images);
    }
    assert(text.subrange(0, list.len() as int) =~= list);
    if doc.passages.len() == 0 {
        assert(list =~= Seq::<u8>::empty());
        assert(renumbered_from(doc.passages, 0) =~= Seq::<PassageView>::empty());
    } else {
        lemma_entry_reads_back(doc.passages[0]);
        assert(list =~= entry_bytes(doc.passages[0]) + passages_from(doc.passages, 1));
        lemma_list_reads_back(doc.passages, 0);
        assert(renumbered_from(doc.passages, 0).skip(0) =~= renumbered_from(doc.passages, 0));
    }
}

} // verus!

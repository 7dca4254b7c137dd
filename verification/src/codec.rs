//! The payload: how a note is written as bytes and read back.
//!
//! A payload is a text segment, optionally followed by an image section:
//!
//! ```text
//! entry ( "|" entry )* ":FontSize=24"  [ 0x88  count  ( length  bytes )* ]
//! ```
//!
//! An entry is `base64(title) "-" base64(text)`; with no passage the list of
//! entries is empty. `count` and each `length` are 32-bit little-endian
//! numbers. The byte `0x88` cannot occur in the text segment, which is ASCII.

use crate::data_structures::{image_views, passage_views, Passage, PassageView, PlainTextView};
use crate::encode::{base64_decode_text, base64_decoded_text, base64_text};
use crate::error::Error;
use vstd::arithmetic::div_mod::{
    lemma_div_denominator, lemma_fundamental_div_mod, lemma_fundamental_div_mod_converse,
    lemma_small_mod,
};
use vstd::prelude::*;
use vstd::slice::*;
use vstd::utf8::*;

verus! {

/// The byte that separates the text segment from the image section.
pub const IMAGE_SEP: u8 = 0x88;

/// The byte `:` that ends the list of passages.
pub const LIST_END: u8 = 0x3a;

/// The byte `|` that separates two passages.
pub const ENTRY_SEP: u8 = 0x7c;

/// The byte `-` that separates a passage's title from its text.
pub const TITLE_SEP: u8 = 0x2d;

/// The number that does not fit in 32 bits any more.
pub open spec fn two_to_32() -> nat {
    0x1_0000_0000
}

/// The low 32 bits of `n`: `n` itself where it fits in 32 bits.
#[verifier::opaque]
pub open spec fn low_32(n: nat) -> nat {
    n % two_to_32()
}

/// The place of the first `byte` in `bytes`, or the length of `bytes` where
/// it holds none.
pub open spec fn first_index(bytes: Seq<u8>, byte: u8) -> int
    decreases bytes.len(),
{
    if bytes.len() == 0 {
        0
    } else if bytes[0] == byte {
        0
    } else {
        1 + first_index(bytes.drop_first(), byte)
    }
}

/// The number that four bytes spell in little-endian order.
#[verifier::opaque]
pub open spec fn le32_value(bytes: Seq<u8>) -> nat
    recommends
        bytes.len() == 4,
{
    (bytes[0] + 256 * bytes[1] + 65536 * bytes[2] + 16777216 * bytes[3]) as nat
}

/// The four bytes that spell `n` in little-endian order.
#[verifier::opaque]
pub open spec fn le32_bytes(n: nat) -> Seq<u8>
    recommends
        n < two_to_32(),
{
    seq![
        (n % 256) as u8,
        (n / 256 % 256) as u8,
        (n / 65536 % 256) as u8,
        (n / 16777216 % 256) as u8,
    ]
}

/// The bytes `:FontSize=24` that end every text segment. They are a relic:
/// they are always written, and on reading only the `:` counts.
pub const LEGACY_SUFFIX: [u8; 12] = [
    0x3a, 0x46, 0x6f, 0x6e, 0x74, 0x53, 0x69, 0x7a, 0x65, 0x3d, 0x32, 0x34,
];

/// The UTF-8 bytes of the base64 text of `data`.
pub open spec fn base64_bytes(data: Seq<u8>) -> Seq<u8> {
    encode_utf8(base64_text(data))
}

/// The entry of one passage: base64 of its title, `-`, base64 of its text.
/// The identifier is not written.
pub open spec fn entry_bytes(passage: PassageView) -> Seq<u8> {
    base64_bytes(encode_utf8(passage.title)) + seq![TITLE_SEP] + base64_bytes(
        encode_utf8(passage.content),
    )
}

/// The entries of the passages from place `i` on, each but the very first
/// of the list with a `|` in front.
pub open spec fn passages_from(passages: Seq<PassageView>, i: int) -> Seq<u8>
    decreases passages.len() - i,
{
    if i < 0 || i >= passages.len() {
        Seq::empty()
    } else {
        let sep = if i > 0 {
            seq![ENTRY_SEP]
        } else {
            Seq::empty()
        };
        sep + entry_bytes(passages[i]) + passages_from(passages, i + 1)
    }
}

/// The text segment: the entries joined by `|`, then the legacy suffix.
pub open spec fn text_segment(passages: Seq<PassageView>) -> Seq<u8> {
    passages_from(passages, 0) + LEGACY_SUFFIX@
}

/// The images from place `i` on, each as its length in 32 bits (the low 32
/// bits, should it be longer) and its bytes.
pub open spec fn images_from(images: Seq<Seq<u8>>, i: int) -> Seq<u8>
    decreases images.len() - i,
{
    if i < 0 || i >= images.len() {
        Seq::empty()
    } else {
        le32_bytes(low_32(images[i].len())) + images[i] + images_from(
            images,
            i + 1,
        )
    }
}

/// The image section: the number of images in 32 bits (the low 32 bits,
/// should there be more), then the images.
pub open spec fn image_section(images: Seq<Seq<u8>>) -> Seq<u8> {
    le32_bytes(low_32(images.len())) + images_from(images, 0)
}

/// The payload of a document: its text segment and, where it has images,
/// the byte `0x88` and its image section.
pub open spec fn payload_bytes(doc: PlainTextView) -> Seq<u8> {
    if doc.images.len() == 0 {
        text_segment(doc.passages)
    } else {
        text_segment(doc.passages) + seq![IMAGE_SEP] + image_section(doc.images)
    }
}

/// Reads `count` images, each a 32-bit length followed by that many bytes,
/// from the front of `bytes`. `None` where `bytes` ends before the images
/// do; what follows the last image is not looked at.
pub open spec fn decode_image_list(bytes: Seq<u8>, count: nat) -> Option<Seq<Seq<u8>>>
    decreases count,
{
    if count == 0 {
        Some(Seq::empty())
    } else if bytes.len() < 4 {
        None
    } else {
        let length = le32_value(bytes.take(4)) as int;
        if bytes.len() - 4 < length {
            None
        } else {
            match decode_image_list(bytes.skip(4 + length), (count - 1) as nat) {
                None => None,
                Some(rest) => Some(seq![bytes.subrange(4, 4 + length)] + rest),
            }
        }
    }
}

/// Reads an image section: a 32-bit count and that many images. `None`
/// where the section is cut short, which an empty section is too: it lacks
/// its count.
pub open spec fn decode_image_section(section: Seq<u8>) -> Option<Seq<Seq<u8>>> {
    if section.len() < 4 {
        None
    } else {
        decode_image_list(section.skip(4), le32_value(section.take(4)))
    }
}

/// Puts already read images in front of what reading the rest gives.
pub open spec fn images_then(done: Seq<Seq<u8>>, rest: Option<Seq<Seq<u8>>>) -> Option<
    Seq<Seq<u8>>,
> {
    match rest {
        None => None,
        Some(more) => Some(done + more),
    }
}

/// Reads one entry: base64 text of the title, `-`, base64 text of the
/// passage's text. The first `-` is the separator, so a second one makes
/// the text part fail as base64.
pub open spec fn decode_entry(entry: Seq<u8>) -> Result<(Seq<char>, Seq<char>), Error> {
    let dash = first_index(entry, TITLE_SEP);
    if dash >= entry.len() {
        Err(Error::InvalidPlaintextFormat)
    } else {
        match base64_decoded_text(entry.subrange(0, dash)) {
            Err(e) => Err(e),
            Ok(title) => match base64_decoded_text(entry.subrange(dash + 1, entry.len() as int)) {
                Err(e) => Err(e),
                Ok(content) => Ok((title, content)),
            },
        }
    }
}

/// Reads a list of entries separated by `|`, numbering the passages from
/// `id` on. The first entry that fails decides the error. An empty list is
/// read as one empty entry, which fails.
pub open spec fn decode_passage_list(list: Seq<u8>, id: nat) -> Result<Seq<PassageView>, Error>
    decreases list.len(),
{
    let bar = first_index(list, ENTRY_SEP);
    match decode_entry(list.subrange(0, bar)) {
        Err(e) => Err(e),
        Ok((title, content)) => {
            let passage = PassageView { id, title, content };
            if 0 <= bar < list.len() {
                match decode_passage_list(list.skip(bar + 1), id + 1) {
                    Err(e) => Err(e),
                    Ok(rest) => Ok(seq![passage] + rest),
                }
            } else {
                Ok(seq![passage])
            }
        },
    }
}

/// Puts already read passages in front of what reading the rest gives.
pub open spec fn passages_then(done: Seq<PassageView>, rest: Result<Seq<PassageView>, Error>)
    -> Result<Seq<PassageView>, Error> {
    match rest {
        Err(e) => Err(e),
        Ok(more) => Ok(done + more),
    }
}

/// The text segment of a payload: what stands before its first `0x88`.
pub open spec fn payload_text(payload: Seq<u8>) -> Seq<u8> {
    payload.subrange(0, first_index(payload, IMAGE_SEP))
}

/// The image section of a payload: what stands after its first `0x88`.
/// `None` where the payload holds no `0x88`, and so no image section; a
/// payload that ends with its first `0x88` has an empty one.
pub open spec fn payload_section(payload: Seq<u8>) -> Option<Seq<u8>> {
    if first_index(payload, IMAGE_SEP) < payload.len() {
        Some(payload.subrange(first_index(payload, IMAGE_SEP) + 1, payload.len() as int))
    } else {
        None
    }
}

/// The images of a payload: none where it has no image section, else what
/// reading the section gives. `None` where the section is cut short.
pub open spec fn payload_images(payload: Seq<u8>) -> Option<Seq<Seq<u8>>> {
    match payload_section(payload) {
        None => Some(Seq::empty()),
        Some(section) => decode_image_section(section),
    }
}

/// The list of entries of a text segment: what stands before its first
/// `:`.
pub open spec fn text_list(text: Seq<u8>) -> Seq<u8> {
    text.subrange(0, first_index(text, LIST_END))
}

/// Reads a payload.
///
/// The bytes before the first `0x88` are the text segment, those after it
/// the image section; without a `0x88` there is no image section. The
/// checks come in this order: the text segment is valid UTF-8
/// (`InvalidUTF8`); the image section, where there is one, holds its count
/// and every image it announces (`InvalidImageFormat`, also for a section
/// of fewer than four bytes, the empty one included); the text segment
/// holds a `:` (`InvalidPlaintextFormat`); every entry before the first `:`
/// reads (the error of the first that does not). With nothing before the
/// first `:` the result is the empty document: images that were read are
/// not kept. Passages are numbered by position.
pub open spec fn decode_payload(payload: Seq<u8>) -> Result<PlainTextView, Error> {
    let text = payload_text(payload);
    if !valid_utf8(text) {
        Err(Error::InvalidUTF8)
    } else {
        match payload_images(payload) {
            None => Err(Error::InvalidImageFormat),
            Some(images) => {
                if first_index(text, LIST_END) >= text.len() {
                    Err(Error::InvalidPlaintextFormat)
                } else if text_list(text).len() == 0 {
                    Ok(PlainTextView::empty())
                } else {
                    match decode_passage_list(text_list(text), 0) {
                        Err(e) => Err(e),
                        Ok(passages) => Ok(
                            PlainTextView { next_id: passages.len(), passages, images },
                        ),
                    }
                }
            },
        }
    }
}

/// What [`first_index`] returns is the only place with nothing equal to
/// `byte` before it and `byte`, or the end, at it.
pub proof fn lemma_first_index(bytes: Seq<u8>, byte: u8)
    ensures
        0 <= first_index(bytes, byte) <= bytes.len(),
        forall|j: int| 0 <= j < first_index(bytes, byte) ==> bytes[j] != byte,
        first_index(bytes, byte) < bytes.len() ==> bytes[first_index(bytes, byte)] == byte,
    decreases bytes.len(),
{
    if bytes.len() != 0 && bytes[0] != byte {
        let tail = bytes.drop_first();
        lemma_first_index(tail, byte);
        assert forall|j: int| 0 <= j < first_index(bytes, byte) implies bytes[j] != byte by {
            if j > 0 {
                assert(bytes[j] == tail[j - 1]);
            }
        }
        assert(first_index(bytes, byte) < bytes.len() ==> bytes[first_index(bytes, byte)]
            == tail[first_index(tail, byte)]);
    }
}

/// A place with nothing equal to `byte` before it and `byte`, or the end,
/// at it is the one that [`first_index`] returns.
pub proof fn lemma_first_index_at(bytes: Seq<u8>, byte: u8, at: int)
    requires
        0 <= at <= bytes.len(),
        forall|j: int| 0 <= j < at ==> bytes[j] != byte,
        at < bytes.len() ==> bytes[at] == byte,
    ensures
        first_index(bytes, byte) == at,
{
    lemma_first_index(bytes, byte);
    let found = first_index(bytes, byte);
    if found < at {
        assert(bytes[found] != byte);
    } else if found > at {
        assert(bytes[at] != byte);
    }
}

/// The passages that [`decode_passage_list`] reads are numbered `id`,
/// `id + 1`, ... in order.
pub proof fn lemma_decoded_ids(list: Seq<u8>, id: nat)
    ensures
        decode_passage_list(list, id) matches Ok(passages) ==> passages.len() >= 1 && forall|
            i: int,
        | 0 <= i < passages.len() ==> (#[trigger] passages[i]).id == id + i,
    decreases list.len(),
{
    let bar = first_index(list, ENTRY_SEP);
    if decode_passage_list(list, id) is Ok && 0 <= bar < list.len() {
        lemma_decoded_ids(list.skip(bar + 1), id + 1);
    }
}

/// The place of the first `byte` at or after `start`, or the length of
/// `bytes` where none follows.
pub fn find_byte(bytes: &[u8], start: usize, byte: u8) -> (at: usize)
    requires
        start <= bytes@.len(),
    ensures
        start <= at <= bytes@.len(),
        at - start == first_index(bytes@.skip(start as int), byte),
{
    let mut at: usize = start;
    while at < bytes.len() && bytes[at] != byte
        invariant
            start <= at <= bytes@.len(),
            forall|j: int| start <= j < at ==> bytes@[j] != byte,
        decreases bytes@.len() - at,
    {
        at += 1;
    }
    proof {
        lemma_first_index_at(bytes@.skip(start as int), byte, at - start);
    }
    at
}

/// The number that the four bytes from `at` on spell in little-endian order.
pub fn read_le32(bytes: &[u8], at: usize) -> (n: u32)
    requires
        at + 4 <= bytes@.len(),
    ensures
        n == le32_value(bytes@.subrange(at as int, at + 4)),
{
    let b0: u32 = bytes[at] as u32;
    let b1: u32 = bytes[at + 1] as u32;
    let b2: u32 = bytes[at + 2] as u32;
    let b3: u32 = bytes[at + 3] as u32;
    proof {
        reveal(le32_value);
    }
    b0 + 256 * b1 + 65536 * b2 + 16777216 * b3
}

/// Appends the four bytes that spell `n` in little-endian order.
pub fn write_le32(out: &mut Vec<u8>, n: u32)
    ensures
        final(out)@ == old(out)@ + le32_bytes(n as nat),
{
    out.push((n % 256) as u8);
    out.push((n / 256 % 256) as u8);
    out.push((n / 65536 % 256) as u8);
    out.push((n / 16777216 % 256) as u8);
    proof {
        reveal(le32_bytes);
    }
    assert(out@ =~= old(out)@ + le32_bytes(n as nat));
}

/// Appends `bytes`.
pub(crate) fn append_bytes(out: &mut Vec<u8>, bytes: &[u8])
    ensures
        final(out)@ == old(out)@ + bytes@,
{
    out.extend_from_slice(bytes);
    assert(out@ =~= old(out)@ + bytes@);
}

/// Appends the legacy suffix `:FontSize=24`.
pub(crate) fn write_legacy_suffix(out: &mut Vec<u8>)
    ensures
        final(out)@ == old(out)@ + LEGACY_SUFFIX@,
{
    append_bytes(out, LEGACY_SUFFIX.as_slice());
}

/// Appends an image: its length in 32 bits, then its bytes.
pub(crate) fn write_image(out: &mut Vec<u8>, image: &[u8])
    ensures
        final(out)@ == old(out)@ + le32_bytes(low_32(image@.len())) + image@,
{
    write_le32(out, low_32_bits(image.len()));
    append_bytes(out, image);
}

/// The low 32 bits of a length.
pub(crate) fn low_32_bits(n: usize) -> (low: u32)
    ensures
        low == low_32(n as nat),
{
    proof {
        reveal(low_32);
    }
    let wide: u64 = n as u64;
    (wide % 0x1_0000_0000) as u32
}

/// A number that fits in 32 bits is its own low 32 bits.
pub proof fn lemma_low_32(n: nat)
    requires
        n < two_to_32(),
    ensures
        low_32(n) == n,
{
    reveal(low_32);
    lemma_small_mod(n, two_to_32());
}

/// Reading back what [`le32_bytes`] wrote gives the number again.
pub proof fn lemma_le32_round_trip(n: nat)
    requires
        n < two_to_32(),
    ensures
        le32_bytes(n).len() == 4,
        le32_value(le32_bytes(n)) == n,
{
    reveal(le32_value);
    reveal(le32_bytes);
    let n = n as int;
    let q1 = n / 256;
    let q2 = q1 / 256;
    let q3 = q2 / 256;
    lemma_fundamental_div_mod(n, 256);
    lemma_fundamental_div_mod(q1, 256);
    lemma_fundamental_div_mod(q2, 256);
    lemma_div_denominator(n, 256, 256);
    lemma_div_denominator(n, 65536, 256);
    assert(q2 == n / 65536);
    assert(q3 == n / 16777216);
    assert(0 <= q3 < 256);
    assert(q3 % 256 == q3);
}

/// Writing the number that four bytes spell gives those four bytes.
pub proof fn lemma_le32_bytes_of_value(bytes: Seq<u8>)
    requires
        bytes.len() == 4,
    ensures
        le32_value(bytes) < two_to_32(),
        le32_bytes(le32_value(bytes)) == bytes,
{
    reveal(le32_value);
    reveal(le32_bytes);
    let b0 = bytes[0] as int;
    let b1 = bytes[1] as int;
    let b2 = bytes[2] as int;
    let b3 = bytes[3] as int;
    let value = le32_value(bytes) as int;
    let q1 = b1 + 256 * b2 + 65536 * b3;
    let q2 = b2 + 256 * b3;
    lemma_fundamental_div_mod_converse(value, 256, q1, b0);
    lemma_fundamental_div_mod_converse(q1, 256, q2, b1);
    lemma_fundamental_div_mod_converse(value, 65536, q2, b0 + 256 * b1);
    lemma_fundamental_div_mod_converse(q2, 256, b3, b2);
    lemma_fundamental_div_mod_converse(value, 16777216, b3, b0 + 256 * b1 + 65536 * b2);
    lemma_fundamental_div_mod_converse(b3, 256, 0, b3);
    assert(le32_bytes(le32_value(bytes)) =~= bytes);
}

/// Reads an image section.
///
/// Succeeds with the images in order exactly where the section holds its
/// count and every image it announces; fails with `InvalidImageFormat`
/// exactly where it is cut short, as a section of fewer than four bytes
/// is.
pub fn decode_images(section: &[u8]) -> (res: Result<Vec<Vec<u8>>, Error>)
    ensures
        match res {
            Ok(images) => decode_image_section(section@) == Some(
                image_views(images@),
            ),
            Err(e) => e == Error::InvalidImageFormat && decode_image_section(section@) is None,
        },
{
    let mut images: Vec<Vec<u8>> = Vec::new();
    if section.len() < 4 {
        return Err(Error::InvalidImageFormat);
    }
    assert(section@.take(4) =~= section@.subrange(0, 4));
    let count: u32 = read_le32(section, 0);
    let mut at: usize = 4;
    let mut read: u32 = 0;
    assert(image_views(images@) =~= Seq::<Seq<u8>>::empty());
    assert(decode_image_list(section@.skip(4), count as nat) =~= images_then(
        image_views(images@),
        decode_image_list(section@.skip(4), count as nat),
    )) by {
        let r = decode_image_list(section@.skip(4), count as nat);
        if r is Some {
            assert(Seq::<Seq<u8>>::empty() + r->0 =~= r->0);
        }
    }
    while read < count
        invariant
            4 <= at <= section@.len(),
            read <= count,
            decode_image_section(section@) == images_then(
                image_views(images@),
                decode_image_list(section@.skip(at as int), (count - read) as nat),
            ),
        decreases count - read,
    {
        let ghost rest = section@.skip(at as int);
        if section.len() - at < 4 {
            return Err(Error::InvalidImageFormat);
        }
        assert(rest.take(4) =~= section@.subrange(at as int, at + 4));
        let length: usize = read_le32(section, at) as usize;
        if section.len() - at - 4 < length {
            return Err(Error::InvalidImageFormat);
        }
        let image: Vec<u8> = slice_to_vec(slice_subrange(section, at + 4, at + 4 + length));
        proof {
            let done = image_views(images@);
            let tail = decode_image_list(rest.skip(4 + length), (count - read - 1) as nat);
            assert(rest.subrange(4, 4 + length) =~= image@);
            assert(rest.skip(4 + length) =~= section@.skip(at + 4 + length));
            assert(image_views(images@.push(image)) =~= done.push(
                image@,
            ));
            if tail is Some {
                assert(done + (seq![image@] + tail->0) =~= done.push(image@) + tail->0);
            }
        }
        images.push(image);
        at = at + 4 + length;
        read = read + 1;
    }
    proof {
        assert(image_views(images@) + Seq::<Seq<u8>>::empty()
            =~= image_views(images@));
    }
    Ok(images)
}

/// Reads one entry of the passage list.
///
/// Succeeds with the title and the text exactly where the entry holds a
/// `-` and both sides of the first one are base64 text of valid UTF-8.
pub fn decode_entry_bytes(entry: &[u8]) -> (res: Result<(String, String), Error>)
    ensures
        match res {
            Ok(pair) => decode_entry(entry@) == Ok::<(Seq<char>, Seq<char>), Error>(
                (pair.0@, pair.1@),
            ),
            Err(e) => decode_entry(entry@) == Err::<(Seq<char>, Seq<char>), Error>(e),
        },
{
    let dash: usize = find_byte(entry, 0, TITLE_SEP);
    assert(entry@.skip(0) =~= entry@);
    if dash >= entry.len() {
        return Err(Error::InvalidPlaintextFormat);
    }
    let title: String = match base64_decode_text(slice_subrange(entry, 0, dash)) {
        Ok(title) => title,
        Err(e) => {
            return Err(e);
        },
    };
    match base64_decode_text(slice_subrange(entry, dash + 1, entry.len())) {
        Ok(content) => Ok((title, content)),
        Err(e) => Err(e),
    }
}

/// Reads a non-empty list of entries.
///
/// Succeeds with the passages in order, numbered by position, exactly where
/// every entry reads; else fails with the error of the first that does not.
pub fn decode_passages(list: &[u8]) -> (res: Result<Vec<Passage>, Error>)
    ensures
        match res {
            Ok(passages) => decode_passage_list(list@, 0) == Ok::<Seq<PassageView>, Error>(
                passage_views(passages@),
            ),
            Err(e) => decode_passage_list(list@, 0) == Err::<Seq<PassageView>, Error>(e),
        },
{
    let mut passages: Vec<Passage> = Vec::new();
    let mut at: usize = 0;
    proof {
        assert(list@.skip(0) =~= list@);
        assert(passage_views(passages@) =~= Seq::<PassageView>::empty());
        let all = decode_passage_list(list@, 0);
        if all is Ok {
            assert(Seq::<PassageView>::empty() + all->Ok_0 =~= all->Ok_0);
        }
    }
    loop
        invariant
            at <= list@.len(),
            decode_passage_list(list@, 0) == passages_then(
                passage_views(passages@),
                decode_passage_list(list@.skip(at as int), passages@.len()),
            ),
        decreases list@.len() - at,
    {
        let ghost rest = list@.skip(at as int);
        let ghost done = passage_views(passages@);
        let bar: usize = find_byte(list, at, ENTRY_SEP);
        assert(rest.subrange(0, bar - at) =~= list@.subrange(at as int, bar as int));
        let pair: (String, String) = match decode_entry_bytes(slice_subrange(list, at, bar)) {
            Ok(pair) => pair,
            Err(e) => {
                return Err(e);
            },
        };
        let passage: Passage = Passage::new(passages.len(), pair.0, pair.1);
        proof {
            assert(passage_views(passages@.push(passage)) =~= done.push(passage@));
            if bar < list@.len() {
                assert(rest.skip(bar - at + 1) =~= list@.skip(bar + 1));
                let more = decode_passage_list(list@.skip(bar + 1), passages@.len() + 1);
                if more is Ok {
                    assert(done + (seq![passage@] + more->Ok_0) =~= done.push(passage@)
                        + more->Ok_0);
                }
            } else {
                assert(done + seq![passage@] =~= done.push(passage@));
            }
        }
        passages.push(passage);
        if bar >= list.len() {
            return Ok(passages);
        }
        at = bar + 1;
    }
}

} // verus!

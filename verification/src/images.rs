//! Images and the lines of text that refer to them.
//!
//! A passage refers to an image by a line of its own that reads
//! `image!(` + digest + `)`, where the digest is the SHA-256 of the image's
//! bytes in 64 lower-case hexadecimal digits. An image that no passage
//! refers to is an orphan. Payloads keep orphans; they go only when
//! [`clean_non_referenced_images`] is called.

use crate::codec::{find_byte, first_index};
use crate::data_structures::{
    image_views, passage_views, renumbered_from, PassageView, PlainText, PlainTextView,
};
use crate::primitives::{sha256, sha256_digest};
use vstd::prelude::*;
use vstd::slice::*;
use vstd::string::*;
use vstd::utf8::*;

verus! {

/// The byte that ends a line: a line feed.
pub const LINE_END: u8 = 0x0a;

/// The lower-case hexadecimal digit of a value below 16.
pub open spec fn hex_digit(value: u8) -> char {
    if value == 0 {
        '0'
    } else if value == 1 {
        '1'
    } else if value == 2 {
        '2'
    } else if value == 3 {
        '3'
    } else if value == 4 {
        '4'
    } else if value == 5 {
        '5'
    } else if value == 6 {
        '6'
    } else if value == 7 {
        '7'
    } else if value == 8 {
        '8'
    } else if value == 9 {
        '9'
    } else if value == 10 {
        'a'
    } else if value == 11 {
        'b'
    } else if value == 12 {
        'c'
    } else if value == 13 {
        'd'
    } else if value == 14 {
        'e'
    } else {
        'f'
    }
}

/// The bytes in lower-case hexadecimal digits, two for each byte, the high
/// half first.
pub open spec fn hex_text(bytes: Seq<u8>) -> Seq<char>
    decreases bytes.len(),
{
    if bytes.len() == 0 {
        Seq::empty()
    } else {
        hex_text(bytes.drop_last()) + seq![
            hex_digit(bytes.last() / 16),
            hex_digit(bytes.last() % 16),
        ]
    }
}

/// The digest by which text refers to an image: its SHA-256 in hexadecimal
/// digits.
pub open spec fn image_digest(image: Seq<u8>) -> Seq<char> {
    hex_text(sha256(image))
}

/// The line that refers to the image with the given digest.
pub open spec fn placeholder(digest: Seq<char>) -> Seq<char> {
    seq!['i', 'm', 'a', 'g', 'e', '!', '('] + digest + seq![')']
}

/// Whether one of the lines of `text`, which line feeds separate, is
/// `line`.
pub open spec fn has_line(text: Seq<u8>, line: Seq<u8>) -> bool
    decreases text.len(),
{
    let end = first_index(text, LINE_END);
    text.subrange(0, end) == line || (0 <= end < text.len() && has_line(
        text.skip(end + 1),
        line,
    ))
}

/// Whether the text of one of the passages holds the line that refers to
/// `image`.
pub open spec fn refers_to(passages: Seq<PassageView>, image: Seq<u8>) -> bool {
    exists|i: int|
        0 <= i < passages.len() && has_line(
            encode_utf8(#[trigger] passages[i].content),
            encode_utf8(placeholder(image_digest(image))),
        )
}

/// The test that an image passes where one of the passages refers to it.
pub open spec fn referenced_by(passages: Seq<PassageView>) -> spec_fn(Seq<u8>) -> bool {
    |image: Seq<u8>| refers_to(passages, image)
}

/// Whether one of the images has the given digest.
pub open spec fn holds_digest(images: Seq<Seq<u8>>, digest: Seq<char>) -> bool {
    exists|k: int| 0 <= k < images.len() && image_digest(#[trigger] images[k]) == digest
}

/// The images after those of `added` were inserted one by one, each
/// unless an image with its digest was there already.
pub open spec fn with_images(images: Seq<Seq<u8>>, added: Seq<Seq<u8>>) -> Seq<Seq<u8>>
    decreases added.len(),
{
    if added.len() == 0 {
        images
    } else {
        let before = with_images(images, added.drop_last());
        if holds_digest(before, image_digest(added.last())) {
            before
        } else {
            before.push(added.last())
        }
    }
}

/// Whether `bytes` starts with `prefix`.
pub open spec fn starts_with(bytes: Seq<u8>, prefix: Seq<u8>) -> bool {
    prefix.len() <= bytes.len() && bytes.take(prefix.len() as int) == prefix
}

/// Whether the digest of `image`, as text, starts with the text `prefix`.
pub open spec fn digest_starts_with(image: Seq<u8>, prefix: Seq<char>) -> bool {
    starts_with(encode_utf8(image_digest(image)), encode_utf8(prefix))
}

/// The hexadecimal digit of a value below 16, as text.
fn hex_digit_text(value: u8) -> (digit: &'static str)
    requires
        value < 16,
    ensures
        digit@ == seq![hex_digit(value)],
{
    proof {
        reveal_strlit("0");
        reveal_strlit("1");
        reveal_strlit("2");
        reveal_strlit("3");
        reveal_strlit("4");
        reveal_strlit("5");
        reveal_strlit("6");
        reveal_strlit("7");
        reveal_strlit("8");
        reveal_strlit("9");
        reveal_strlit("a");
        reveal_strlit("b");
        reveal_strlit("c");
        reveal_strlit("d");
        reveal_strlit("e");
        reveal_strlit("f");
    }
    let digit: &'static str = match value {
        0 => "0",
        1 => "1",
        2 => "2",
        3 => "3",
        4 => "4",
        5 => "5",
        6 => "6",
        7 => "7",
        8 => "8",
        9 => "9",
        10 => "a",
        11 => "b",
        12 => "c",
        13 => "d",
        14 => "e",
        _ => "f",
    };
    assert(digit@ =~= seq![hex_digit(value)]);
    digit
}

/// Writes bytes in lower-case hexadecimal digits.
pub fn hex_encode(bytes: &[u8]) -> (text: String)
    ensures
        text@ == hex_text(bytes@),
        text@.len() == 2 * bytes@.len(),
{
    let mut text: String = String::new();
    let mut i: usize = 0;
    while i < bytes.len()
        invariant
            i <= bytes@.len(),
            text@ == hex_text(bytes@.take(i as int)),
            text@.len() == 2 * i,
        decreases bytes@.len() - i,
    {
        let byte: u8 = bytes[i];
        proof {
            assert(bytes@.take(i + 1).drop_last() =~= bytes@.take(i as int));
            assert(bytes@.take(i + 1).last() == byte);
        }
        text.append(hex_digit_text(byte / 16));
        text.append(hex_digit_text(byte % 16));
        assert(text@ =~= hex_text(bytes@.take(i as int)) + seq![
            hex_digit(byte / 16),
            hex_digit(byte % 16),
        ]);
        i += 1;
    }
    assert(bytes@.take(i as int) =~= bytes@);
    text
}

/// The digest by which text refers to `image`: 64 hexadecimal digits.
pub fn digest_of_image(image: &[u8]) -> (digest: String)
    ensures
        digest@ == image_digest(image@),
        digest@.len() == 64,
{
    let hash: Vec<u8> = sha256_digest(image);
    hex_encode(hash.as_slice())
}

/// The line that refers to the image with the given digest.
pub fn image_placeholder(digest: &str) -> (line: String)
    ensures
        line@ == placeholder(digest@),
{
    proof {
        reveal_strlit("image!(");
        reveal_strlit(")");
        assert("image!("@ =~= seq!['i', 'm', 'a', 'g', 'e', '!', '(']);
        assert(")"@ =~= seq![')']);
    }
    let mut line: String = String::from_str("image!(");
    line.append(digest);
    line.append(")");
    line
}

/// Whether two runs of bytes are the same.
pub fn same_bytes(a: &[u8], b: &[u8]) -> (same: bool)
    ensures
        same == (a@ == b@),
{
    if a.len() != b.len() {
        return false;
    }
    let mut i: usize = 0;
    while i < a.len()
        invariant
            i <= a@.len(),
            a@.len() == b@.len(),
            forall|j: int| 0 <= j < i ==> a@[j] == b@[j],
        decreases a@.len() - i,
    {
        if a[i] != b[i] {
            return false;
        }
        i += 1;
    }
    assert(a@ =~= b@);
    true
}

/// Whether two texts are the same.
pub fn same_text(a: &str, b: &str) -> (same: bool)
    ensures
        same == (a@ == b@),
{
    proof {
        encode_utf8_decode_utf8(a@);
        encode_utf8_decode_utf8(b@);
    }
    same_bytes(a.as_bytes(), b.as_bytes())
}

/// Whether one of the lines of `text` is `line`.
pub fn contains_line(text: &[u8], line: &[u8]) -> (found: bool)
    ensures
        found == has_line(text@, line@),
{
    let mut at: usize = 0;
    assert(text@.skip(0) =~= text@);
    loop
        invariant
            at <= text@.len(),
            has_line(text@, line@) == has_line(text@.skip(at as int), line@),
        decreases text@.len() - at,
    {
        let end: usize = find_byte(text, at, LINE_END);
        proof {
            let rest = text@.skip(at as int);
            assert(rest.subrange(0, end - at) =~= text@.subrange(at as int, end as int));
            if end < text@.len() {
                assert(rest.skip(end - at + 1) =~= text@.skip(end + 1));
            }
        }
        if same_bytes(slice_subrange(text, at, end), line) {
            return true;
        }
        if end >= text.len() {
            return false;
        }
        at = end + 1;
    }
}

/// Whether a passage of the note refers to `image`.
pub fn is_referenced(doc: &PlainText, image: &[u8]) -> (found: bool)
    ensures
        found == refers_to(doc@.passages, image@),
{
    let line: String = image_placeholder(digest_of_image(image).as_str());
    let passages = doc.passages();
    let mut i: usize = 0;
    while i < passages.len()
        invariant
            i <= passages@.len(),
            passage_views(passages@) == doc@.passages,
            line@ == placeholder(image_digest(image@)),
            forall|j: int|
                0 <= j < i ==> !has_line(
                    encode_utf8(#[trigger] doc@.passages[j].content),
                    encode_utf8(line@),
                ),
        decreases passages@.len() - i,
    {
        assert(passage_views(passages@)[i as int] == passages@[i as int]@);
        if contains_line(passages[i].content().as_str().as_bytes(), line.as_str().as_bytes()) {
            return true;
        }
        i += 1;
    }
    false
}

/// Whether the note holds an image with the given digest.
pub fn has_image_with_digest(doc: &PlainText, digest: &str) -> (found: bool)
    ensures
        found == holds_digest(doc@.images, digest@),
{
    let images = doc.images();
    let mut k: usize = 0;
    while k < images.len()
        invariant
            k <= images@.len(),
            image_views(images@) == doc@.images,
            forall|j: int| 0 <= j < k ==> image_digest(#[trigger] doc@.images[j]) != digest@,
        decreases images@.len() - k,
    {
        assert(image_views(images@)[k as int] == images@[k as int]@);
        let held: String = digest_of_image(images[k].as_slice());
        if same_text(held.as_str(), digest) {
            return true;
        }
        k += 1;
    }
    false
}

/// Adds an image to the note, unless the note holds an image with the same
/// digest already. Gives the digest, by which a passage can refer to the
/// image.
pub fn insert_image(doc: &mut PlainText, image: Vec<u8>) -> (digest: String)
    ensures
        digest@ == image_digest(image@),
        final(doc)@ == (PlainTextView {
            images: if holds_digest(old(doc)@.images, image_digest(image@)) {
                old(doc)@.images
            } else {
                old(doc)@.images.push(image@)
            },
            ..old(doc)@
        }),
{
    let digest: String = digest_of_image(image.as_slice());
    if !has_image_with_digest(doc, digest.as_str()) {
        let images = doc.images_mut();
        let ghost before = image_views(images@);
        images.push(image);
        assert(image_views(images@) =~= before.push(image@));
    }
    digest
}

/// Drops the images that no passage refers to. The images that stay keep
/// their order; the passages are not touched.
pub fn clean_non_referenced_images(doc: &mut PlainText)
    ensures
        final(doc)@ == (PlainTextView {
            images: old(doc)@.images.filter(referenced_by(old(doc)@.passages)),
            ..old(doc)@
        }),
{
    let ghost all = doc@.images;
    let ghost test = referenced_by(doc@.passages);
    let mut kept: Vec<Vec<u8>> = Vec::new();
    let mut k: usize = 0;
    assert(image_views(kept@) =~= all.take(0).filter(test)) by {
        reveal(Seq::filter);
    }
    while k < doc.num_images()
        invariant
            doc@ == old(doc)@,
            all == doc@.images,
            test == referenced_by(doc@.passages),
            k <= all.len(),
            image_views(kept@) == all.take(k as int).filter(test),
        decreases all.len() - k,
    {
        let ghost before = image_views(kept@);
        let images = doc.images();
        assert(image_views(images@)[k as int] == images@[k as int]@);
        proof {
            let upto = all.take(k + 1);
            assert(upto.drop_last() =~= all.take(k as int));
            assert(upto.last() == all[k as int]);
            assert(test(all[k as int]) == refers_to(doc@.passages, all[k as int]));
            reveal(Seq::filter);
            assert(upto.filter(test) == if test(upto.last()) {
                upto.drop_last().filter(test).push(upto.last())
            } else {
                upto.drop_last().filter(test)
            });
        }
        if is_referenced(doc, images[k].as_slice()) {
            let image: Vec<u8> = slice_to_vec(images[k].as_slice());
            kept.push(image);
            assert(image_views(kept@) =~= before.push(all[k as int]));
        }
        k += 1;
    }
    assert(all.take(k as int) =~= all);
    let images = doc.images_mut();
    *images = kept;
}

/// Appends another note to the note: copies of its passages under fresh
/// identifiers, and its images, each unless the note holds an image with
/// the same digest already.
pub fn append_with_images(doc: &mut PlainText, other: &PlainText)
    requires
        old(doc)@.next_id + other@.passages.len() <= usize::MAX,
    ensures
        final(doc)@ == (PlainTextView {
            next_id: old(doc)@.next_id + other@.passages.len(),
            passages: old(doc)@.passages + renumbered_from(
                other@.passages,
                old(doc)@.next_id,
            ),
            images: with_images(old(doc)@.images, other@.images),
        }),
        old(doc)@.well_formed() ==> final(doc)@.well_formed(),
{
    doc.append_plaintext(other);
    let ghost appended = doc@;
    let added = other.images();
    let mut k: usize = 0;
    while k < added.len()
        invariant
            k <= added@.len(),
            image_views(added@) == other@.images,
            doc@ == (PlainTextView {
                images: with_images(appended.images, other@.images.take(k as int)),
                ..appended
            }),
        decreases added@.len() - k,
    {
        proof {
            let upto = other@.images.take(k + 1);
            assert(upto.drop_last() =~= other@.images.take(k as int));
            assert(upto.last() == added@[k as int]@);
        }
        let image: Vec<u8> = slice_to_vec(added[k].as_slice());
        insert_image(doc, image);
        k += 1;
    }
    assert(other@.images.take(k as int) =~= other@.images);
}

/// The place of the first image whose digest starts with the text
/// `prefix`, if the note holds such an image.
pub fn find_image(doc: &PlainText, prefix: &str) -> (found: Option<usize>)
    ensures
        match found {
            Some(k) => k < doc@.images.len() && digest_starts_with(
                doc@.images[k as int],
                prefix@,
            ) && forall|j: int| 0 <= j < k ==> !digest_starts_with(#[trigger] doc@.images[j], prefix@),
            None => forall|j: int|
                0 <= j < doc@.images.len() ==> !digest_starts_with(
                    #[trigger] doc@.images[j],
                    prefix@,
                ),
        },
{
    let images = doc.images();
    let mut k: usize = 0;
    while k < images.len()
        invariant
            k <= images@.len(),
            image_views(images@) == doc@.images,
            forall|j: int| 0 <= j < k ==> !digest_starts_with(#[trigger] doc@.images[j], prefix@),
        decreases images@.len() - k,
    {
        assert(image_views(images@)[k as int] == images@[k as int]@);
        let digest: String = digest_of_image(images[k].as_slice());
        if has_prefix(digest.as_str().as_bytes(), prefix.as_bytes()) {
            return Some(k);
        }
        k += 1;
    }
    None
}

/// Whether `bytes` starts with `prefix`.
pub fn has_prefix(bytes: &[u8], prefix: &[u8]) -> (found: bool)
    ensures
        found == starts_with(bytes@, prefix@),
{
    if prefix.len() > bytes.len() {
        return false;
    }
    same_bytes(slice_subrange(bytes, 0, prefix.len()), prefix)
}

} // verus!

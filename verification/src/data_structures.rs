//! The document model: passages and the note that holds them.

use crate::cipher::{decrypt_fields, encrypt, opened_note, seals, split_record};
use crate::codec::{
    append_bytes, decode_images, decode_passages, decode_payload, entry_bytes, find_byte,
    first_index, image_section, images_from, le32_bytes, lemma_decoded_ids, low_32, low_32_bits,
    passages_from, payload_bytes, text_segment, write_image, write_le32, write_legacy_suffix,
    ENTRY_SEP, IMAGE_SEP, LIST_END,
};
use crate::encode::{base64_encode, base64_text, text_from_utf8};
use crate::error::Error;
use crate::round_trip::{
    lemma_payload_parts, lemma_payload_reads_back, lemma_text_segment, lemma_utf8_of_ascii,
    lemma_utf8_of_concat, sound_passage, sound_passages,
};
use vstd::pervasive::VecAdditionalExecFns;
use vstd::prelude::*;
use vstd::slice::*;
use vstd::string::*;
use vstd::utf8::*;

verus! {

/// What a [`Passage`] stands for: its identifier, title and text.
#[verifier::ext_equal]
pub struct PassageView {
    pub id: nat,
    pub title: Seq<char>,
    pub content: Seq<char>,
}

/// What a [`PlainText`] stands for: the next identifier it will hand out,
/// its passages in order, and its images in order.
#[verifier::ext_equal]
pub struct PlainTextView {
    pub next_id: nat,
    pub passages: Seq<PassageView>,
    pub images: Seq<Seq<u8>>,
}

/// One titled piece of text in a note.
#[derive(Debug, PartialEq, Eq)]
pub struct Passage {
    id: usize,
    title: String,
    content: String,
}

/// A note: passages in the order the user gave them, and the images that
/// their text refers to.
#[derive(Debug, PartialEq, Eq)]
pub struct PlainText {
    next_id: usize,
    content: Vec<Passage>,
    images: Vec<Vec<u8>>,
}

/// The passages that `passages` stand for, in the same order.
pub open spec fn passage_views(passages: Seq<Passage>) -> Seq<PassageView> {
    Seq::new(passages.len(), |i: int| passages[i]@)
}

/// The byte strings that `images` hold, in the same order.
pub open spec fn image_views(images: Seq<Vec<u8>>) -> Seq<Seq<u8>> {
    Seq::new(images.len(), |i: int| images[i]@)
}

/// The same passages with the identifiers `start`, `start + 1`, ... in place
/// of their own.
pub open spec fn renumbered_from(passages: Seq<PassageView>, start: nat) -> Seq<PassageView> {
    Seq::new(
        passages.len(),
        |i: int|
            PassageView {
                id: (start + i) as nat,
                title: passages[i].title,
                content: passages[i].content,
            },
    )
}

impl PlainTextView {
    /// The document without passages or images, which has handed out no
    /// identifier yet.
    pub open spec fn empty() -> PlainTextView {
        PlainTextView { next_id: 0, passages: Seq::empty(), images: Seq::empty() }
    }

    /// The invariant of a note: every identifier in use is below the next
    /// one to be handed out, and no two passages share one.
    pub open spec fn well_formed(self) -> bool {
        &&& forall|i: int| 0 <= i < self.passages.len() ==> (#[trigger] self.passages[i]).id
            < self.next_id
        &&& forall|i: int, j: int|
            0 <= i < j < self.passages.len() ==> (#[trigger] self.passages[i]).id != (
            #[trigger] self.passages[j]).id
    }

    /// The same titles, texts and images, with each passage's position as
    /// its identifier and the number of passages as the next one.
    pub open spec fn renumbered(self) -> PlainTextView {
        PlainTextView {
            next_id: self.passages.len(),
            passages: renumbered_from(self.passages, 0),
            images: self.images,
        }
    }
}

impl View for Passage {
    type V = PassageView;

    closed spec fn view(&self) -> PassageView {
        PassageView { id: self.id as nat, title: self.title@, content: self.content@ }
    }
}

impl View for PlainText {
    type V = PlainTextView;

    closed spec fn view(&self) -> PlainTextView {
        PlainTextView {
            next_id: self.next_id as nat,
            passages: passage_views(self.content@),
            images: image_views(self.images@),
        }
    }
}

impl Clone for Passage {
    fn clone(&self) -> (copy: Self)
        ensures
            copy == *self,
    {
        Passage { id: self.id, title: self.title.clone(), content: self.content.clone() }
    }
}

impl Clone for PlainText {
    fn clone(&self) -> (copy: Self)
        ensures
            copy@ == self@,
    {
        let mut content: Vec<Passage> = Vec::new();
        let mut i: usize = 0;
        while i < self.content.len()
            invariant
                i <= self.content@.len(),
                content@ == self.content@.take(i as int),
            decreases self.content@.len() - i,
        {
            content.push(self.content[i].clone());
            assert(content@ =~= self.content@.take(i + 1));
            i += 1;
        }
        let mut images: Vec<Vec<u8>> = Vec::new();
        let mut k: usize = 0;
        while k < self.images.len()
            invariant
                k <= self.images@.len(),
                image_views(images@) == image_views(self.images@).take(k as int),
            decreases self.images@.len() - k,
        {
            let ghost before = image_views(images@);
            let image: Vec<u8> = slice_to_vec(self.images[k].as_slice());
            images.push(image);
            proof {
                let all = image_views(self.images@);
                assert(image_views(images@) =~= before.push(all[k as int]));
                assert(all.take(k + 1) =~= all.take(k as int).push(all[k as int]));
            }
            k += 1;
        }
        assert(content@ =~= self.content@);
        assert(image_views(self.images@).take(k as int) =~= image_views(self.images@));
        PlainText { next_id: self.next_id, content, images }
    }
}

impl Default for PlainText {
    fn default() -> (doc: Self)
        ensures
            doc@ == PlainTextView::empty(),
    {
        PlainText::empty()
    }
}

impl Passage {
    /// A passage with the given identifier, title and text.
    pub fn new(id: usize, title: String, content: String) -> (passage: Self)
        ensures
            passage@ == (PassageView { id: id as nat, title: title@, content: content@ }),
    {
        Self { id, title, content }
    }

    /// The passage's title.
    pub fn title(&self) -> (title: &String)
        ensures
            title@ == self@.title,
    {
        &self.title
    }

    /// The passage's text.
    pub fn content(&self) -> (content: &String)
        ensures
            content@ == self@.content,
    {
        &self.content
    }

    /// The passage's entry in a payload, as text: the base64 text of the
    /// title, `-`, and the base64 text of the passage's text. Its bytes are
    /// the entry that [`PlainText::encode`] writes for the passage.
    pub fn encode(&self) -> (text: String)
        ensures
            text@ == base64_text(encode_utf8(self@.title)) + seq!['-'] + base64_text(
                encode_utf8(self@.content),
            ),
            encode_utf8(text@) == entry_bytes(self@),
            sound_passage(self@),
    {
        let mut text: String = base64_encode(self.title.as_str().as_bytes());
        let content: String = base64_encode(self.content.as_str().as_bytes());
        proof {
            reveal_strlit("-");
            assert("-"@ =~= seq!['-']);
            lemma_utf8_of_ascii('-');
            lemma_utf8_of_concat(text@, seq!['-']);
            lemma_utf8_of_concat(text@ + seq!['-'], content@);
        }
        text.append("-");
        text.append(content.as_str());
        text
    }
}

impl PlainText {
    /// A note with the given parts, taken as they are.
    ///
    /// The note is well formed exactly where the identifiers of `content`
    /// are distinct and below `next_id`.
    pub fn new(next_id: usize, content: Vec<Passage>, images: Vec<Vec<u8>>) -> (doc: Self)
        ensures
            doc@ == (PlainTextView {
                next_id: next_id as nat,
                passages: passage_views(content@),
                images: image_views(images@),
            }),
    {
        Self { next_id, content, images }
    }

    /// The note without passages or images.
    pub fn empty() -> (doc: Self)
        ensures
            doc@ == PlainTextView::empty(),
            doc@.well_formed(),
    {
        let doc = Self::new(0, Vec::new(), Vec::new());
        assert(doc@.passages =~= Seq::<PassageView>::empty());
        assert(doc@.images =~= Seq::<Seq<u8>>::empty());
        doc
    }

    /// A note with the given passages, numbered anew by position, and no
    /// images.
    pub fn from_passages(content: Vec<Passage>) -> (doc: Self)
        ensures
            doc@ == (PlainTextView {
                next_id: content@.len(),
                passages: renumbered_from(passage_views(content@), 0),
                images: Seq::empty(),
            }),
            doc@.well_formed(),
    {
        let doc = Self::from_passages_images(content, Vec::new());
        assert(doc@.images =~= Seq::<Seq<u8>>::empty());
        doc
    }

    /// A note with the given passages, numbered anew by position, and the
    /// given images.
    pub fn from_passages_images(content: Vec<Passage>, images: Vec<Vec<u8>>) -> (doc: Self)
        ensures
            doc@ == (PlainTextView {
                next_id: content@.len(),
                passages: renumbered_from(passage_views(content@), 0),
                images: image_views(images@),
            }),
            doc@.well_formed(),
    {
        let mut passages = content;
        let count: usize = passages.len();
        renumber(&mut passages, 0);
        assert(passage_views(passages@).len() == count);
        Self { next_id: count, content: passages, images }
    }

    /// The identifier that the next new passage will get.
    pub fn next_id(&self) -> (id: usize)
        ensures
            id == self@.next_id,
    {
        self.next_id
    }

    /// The number of passages.
    pub fn num_passages(&self) -> (n: usize)
        ensures
            n == self@.passages.len(),
    {
        self.content.len()
    }

    /// The number of images.
    pub fn num_images(&self) -> (n: usize)
        ensures
            n == self@.images.len(),
    {
        self.images.len()
    }

    /// Whether the note has no passage.
    pub fn is_empty(&self) -> (empty: bool)
        ensures
            empty == (self@.passages.len() == 0),
    {
        self.content.len() == 0
    }

    /// The text of the first passage, if there is one.
    pub fn get_first_passage_text(&self) -> (text: Option<String>)
        ensures
            match text {
                Some(text) => self@.passages.len() > 0 && text@ == self@.passages[0].content,
                None => self@.passages.len() == 0,
            },
    {
        if self.content.len() > 0 {
            Some(self.content[0].content.clone())
        } else {
            None
        }
    }

    /// The title of the passage at `index`, if there is one.
    pub fn title_of_passage(&self, index: usize) -> (title: Option<String>)
        ensures
            match title {
                Some(title) => index < self@.passages.len() && title@ == self@.passages[index as int].title,
                None => index >= self@.passages.len(),
            },
    {
        if index < self.content.len() {
            Some(self.content[index].title.clone())
        } else {
            None
        }
    }

    /// The text of the passage at `index`, if there is one.
    pub fn content_of_passage(&self, index: usize) -> (text: Option<&String>)
        ensures
            match text {
                Some(text) => index < self@.passages.len() && text@ == self@.passages[index as int].content,
                None => index >= self@.passages.len(),
            },
    {
        if index < self.content.len() {
            Some(&self.content[index].content)
        } else {
            None
        }
    }

    /// The text of the passage at `index`, to be changed in place, if there
    /// is such a passage.
    pub fn content_of_passage_mut(&mut self, index: usize) -> (text: Option<&mut String>)
        ensures
            match text {
                Some(text) => index < old(self)@.passages.len() && text@ == old(
                    self,
                )@.passages[index as int].content && final(self)@ == (PlainTextView {
                    passages: old(self)@.passages.update(
                        index as int,
                        PassageView {
                            content: final(text)@,
                            ..old(self)@.passages[index as int]
                        },
                    ),
                    ..old(self)@
                }),
                None => index >= old(self)@.passages.len() && final(self)@ == old(self)@,
            },
    {
        if index < self.content.len() {
            Some(&mut self.content[index].content)
        } else {
            None
        }
    }

    /// The images, in order.
    pub fn images(&self) -> (images: &Vec<Vec<u8>>)
        ensures
            image_views(images@) == self@.images,
            images@.len() == self@.images.len(),
            forall|i: int| 0 <= i < images@.len() ==> (#[trigger] images@[i])@ == self@.images[i],
    {
        &self.images
    }

    /// The images, to be changed in place. The passages are not touched.
    pub fn images_mut(&mut self) -> (images: &mut Vec<Vec<u8>>)
        ensures
            image_views(images@) == old(self)@.images,
            images@.len() == old(self)@.images.len(),
            final(self)@ == (PlainTextView {
                images: image_views(final(images)@),
                ..old(self)@
            }),
            final(self)@.images.len() == final(images)@.len(),
    {
        &mut self.images
    }

    /// The identifier of the passage at `index`, if there is one.
    pub fn id_of_passage(&self, index: usize) -> (id: Option<usize>)
        ensures
            match id {
                Some(id) => index < self@.passages.len() && id == self@.passages[index as int].id,
                None => index >= self@.passages.len(),
            },
    {
        if index < self.content.len() {
            Some(self.content[index].id)
        } else {
            None
        }
    }

    /// The passages, in order.
    pub fn passages(&self) -> (passages: &Vec<Passage>)
        ensures
            passage_views(passages@) == self@.passages,
            passages@.len() == self@.passages.len(),
            forall|i: int|
                0 <= i < passages@.len() ==> (#[trigger] passages@[i])@ == self@.passages[i],
    {
        &self.content
    }

    /// The place nearest to `index` that holds a passage: `index` itself
    /// where it holds one, else the last place; `0` in a note without
    /// passages.
    pub fn bounded_index(&self, index: usize) -> (bounded: usize)
        ensures
            self@.passages.len() == 0 ==> bounded == 0,
            index < self@.passages.len() ==> bounded == index,
            0 < self@.passages.len() <= index ==> bounded == self@.passages.len() - 1,
    {
        if self.content.len() == 0 {
            0
        } else if index < self.content.len() {
            index
        } else {
            self.content.len() - 1
        }
    }

    /// Replaces the text of the passage at `index`.
    pub fn set_content(&mut self, index: usize, content: String)
        requires
            index < old(self)@.passages.len(),
        ensures
            final(self)@ == (PlainTextView {
                passages: old(self)@.passages.update(
                    index as int,
                    PassageView { content: content@, ..old(self)@.passages[index as int] },
                ),
                ..old(self)@
            }),
            old(self)@.well_formed() ==> final(self)@.well_formed(),
    {
        self.content[index].content = content;
        assert(self@.passages =~= old(self)@.passages.update(
            index as int,
            PassageView { content: content@, ..old(self)@.passages[index as int] },
        ));
    }

    /// Replaces the title of the passage at `index`.
    pub fn set_title(&mut self, index: usize, title: String)
        requires
            index < old(self)@.passages.len(),
        ensures
            final(self)@ == (PlainTextView {
                passages: old(self)@.passages.update(
                    index as int,
                    PassageView { title: title@, ..old(self)@.passages[index as int] },
                ),
                ..old(self)@
            }),
            old(self)@.well_formed() ==> final(self)@.well_formed(),
    {
        self.content[index].title = title;
        assert(self@.passages =~= old(self)@.passages.update(
            index as int,
            PassageView { title: title@, ..old(self)@.passages[index as int] },
        ));
    }

    /// Puts a new passage with the given title and no text at `index`,
    /// under the next identifier of the note.
    pub fn insert_new_passage(&mut self, index: usize, title: String)
        requires
            index <= old(self)@.passages.len(),
            old(self)@.next_id < usize::MAX,
        ensures
            final(self)@ == (PlainTextView {
                next_id: old(self)@.next_id + 1,
                passages: old(self)@.passages.insert(
                    index as int,
                    PassageView { id: old(self)@.next_id, title: title@, content: Seq::empty() },
                ),
                ..old(self)@
            }),
            old(self)@.well_formed() ==> final(self)@.well_formed(),
    {
        let passage: Passage = Passage { id: self.next_id, title, content: String::new() };
        self.content.insert(index, passage);
        self.next_id = self.next_id + 1;
        assert(self@.passages =~= old(self)@.passages.insert(
            index as int,
            PassageView { id: old(self)@.next_id, title: title@, content: Seq::empty() },
        ));
    }

    /// Takes the passage at `index` out of the note. Its identifier is not
    /// handed out again.
    pub fn remove_passage(&mut self, index: usize) -> (removed: Passage)
        requires
            index < old(self)@.passages.len(),
        ensures
            removed@ == old(self)@.passages[index as int],
            final(self)@ == (PlainTextView {
                passages: old(self)@.passages.remove(index as int),
                ..old(self)@
            }),
            old(self)@.well_formed() ==> final(self)@.well_formed(),
    {
        let removed: Passage = self.content.remove(index);
        assert(self@.passages =~= old(self)@.passages.remove(index as int));
        removed
    }

    /// Exchanges the passages at `a` and `b`.
    pub fn swap(&mut self, a: usize, b: usize)
        requires
            a < old(self)@.passages.len(),
            b < old(self)@.passages.len(),
        ensures
            final(self)@ == (PlainTextView {
                passages: old(self)@.passages.update(a as int, old(self)@.passages[b as int])
                    .update(b as int, old(self)@.passages[a as int]),
                ..old(self)@
            }),
            old(self)@.well_formed() ==> final(self)@.well_formed(),
    {
        if a != b {
            let mut held: Passage = Passage { id: 0, title: String::new(), content: String::new() };
            self.content.set_and_swap(a, &mut held);
            self.content.set_and_swap(b, &mut held);
            self.content.set(a, held);
        }
        assert(self@.passages =~= old(self)@.passages.update(
            a as int,
            old(self)@.passages[b as int],
        ).update(b as int, old(self)@.passages[a as int]));
    }

    /// Appends copies of the passages of `plaintext`, each under a fresh
    /// identifier of this note. The images of `plaintext` are not taken
    /// over.
    pub fn append_plaintext(&mut self, plaintext: &PlainText)
        requires
            old(self)@.next_id + plaintext@.passages.len() <= usize::MAX,
        ensures
            final(self)@ == (PlainTextView {
                next_id: old(self)@.next_id + plaintext@.passages.len(),
                passages: old(self)@.passages + renumbered_from(
                    plaintext@.passages,
                    old(self)@.next_id,
                ),
                ..old(self)@
            }),
            old(self)@.well_formed() ==> final(self)@.well_formed(),
    {
        let mut i: usize = 0;
        while i < plaintext.content.len()
            invariant
                i <= plaintext.content@.len(),
                old(self).next_id + plaintext.content@.len() <= usize::MAX,
                self.next_id == old(self).next_id + i,
                self.images == old(self).images,
                passage_views(self.content@) == old(self)@.passages + renumbered_from(
                    plaintext@.passages,
                    old(self)@.next_id,
                ).take(i as int),
            decreases plaintext.content@.len() - i,
        {
            let ghost before = passage_views(self.content@);
            let given: &Passage = &plaintext.content[i];
            let copy: Passage = Passage {
                id: self.next_id,
                title: given.title.clone(),
                content: given.content.clone(),
            };
            self.content.push(copy);
            self.next_id = self.next_id + 1;
            proof {
                let added = renumbered_from(plaintext@.passages, old(self)@.next_id);
                assert(passage_views(self.content@) =~= before.push(added[i as int]));
                assert(added.take(i + 1) =~= added.take(i as int).push(added[i as int]));
                assert(old(self)@.passages + added.take(i + 1) =~= (old(self)@.passages
                    + added.take(i as int)).push(added[i as int]));
            }
            i += 1;
        }
        proof {
            let added = renumbered_from(plaintext@.passages, old(self)@.next_id);
            assert(added.take(plaintext.content@.len() as int) =~= added);
        }
    }

    /// Writes the note as a payload.
    ///
    /// The result is [`payload_bytes`] of the note. Its text segment is
    /// ASCII, so the first `0x88` of the payload, if there is one, is the
    /// one that stands between text segment and image section; a note
    /// without images gives a payload without `0x88`. The base64 text of
    /// every title and passage text is sound. Reading the payload gives the
    /// note back, numbered anew, for every note that [`reads_back`] allows:
    /// the titles, the texts and the images are the same and in the same
    /// order.
    ///
    /// [`reads_back`]: PlainTextView::reads_back
    pub fn encode(&self) -> (out: Vec<u8>)
        ensures
            out@ == payload_bytes(self@),
            sound_passages(self@.passages),
            forall|i: int|
                0 <= i < text_segment(self@.passages).len() ==> #[trigger] out@[i] < 0x80,
            first_index(out@, IMAGE_SEP) == text_segment(self@.passages).len(),
            self@.images.len() == 0 ==> out@.len() == text_segment(self@.passages).len(),
            self@.images.len() > 0 ==> out@[text_segment(self@.passages).len() as int]
                == IMAGE_SEP,
            self@.reads_back() ==> decode_payload(out@) == Ok::<PlainTextView, Error>(
                self@.renumbered(),
            ),
    {
        let ghost passages = self@.passages;
        let ghost images = self@.images;
        let mut out: Vec<u8> = Vec::new();
        let mut i: usize = 0;
        assert(out@ + passages_from(passages, 0) =~= passages_from(passages, 0));
        while i < self.content.len()
            invariant
                i <= self.content@.len(),
                passages == passage_views(self.content@),
                passages_from(passages, 0) == out@ + passages_from(passages, i as int),
                forall|j: int| 0 <= j < i ==> sound_passage(#[trigger] passages[j]),
            decreases self.content@.len() - i,
        {
            let ghost before = out@;
            if i > 0 {
                out.push(ENTRY_SEP);
            }
            let entry: String = self.content[i].encode();
            append_bytes(&mut out, entry.as_str().as_bytes());
            proof {
                let sep: Seq<u8> = if i > 0 {
                    seq![ENTRY_SEP]
                } else {
                    Seq::empty()
                };
                assert(out@ =~= before + sep + entry_bytes(passages[i as int]));
                assert(before + (sep + entry_bytes(passages[i as int]) + passages_from(
                    passages,
                    i + 1,
                )) =~= out@ + passages_from(passages, i + 1));
            }
            i += 1;
        }
        assert(out@ =~= passages_from(passages, 0));
        write_legacy_suffix(&mut out);
        if self.images.len() > 0 {
            out.push(IMAGE_SEP);
            write_le32(&mut out, low_32_bits(self.images.len()));
            let ghost head = out@;
            let mut k: usize = 0;
            assert(out@ + images_from(images, 0) =~= head + images_from(images, 0));
            while k < self.images.len()
                invariant
                    k <= self.images@.len(),
                    images == image_views(self.images@),
                    head + images_from(images, 0) == out@ + images_from(images, k as int),
                decreases self.images@.len() - k,
            {
                let ghost before = out@;
                write_image(&mut out, self.images[k].as_slice());
                proof {
                    let image = images[k as int];
                    assert(before + (le32_bytes(low_32(image.len())) + image
                        + images_from(images, k + 1)) =~= out@ + images_from(images, k + 1));
                }
                k += 1;
            }
            assert(out@ =~= text_segment(passages) + seq![IMAGE_SEP] + image_section(images));
        }
        proof {
            lemma_text_segment(passages);
            lemma_payload_parts(self@);
            assert forall|i: int| 0 <= i < text_segment(passages).len() implies #[trigger] out@[i]
                < 0x80 by {
                assert(out@[i] == text_segment(passages)[i]);
            }
            if self@.reads_back() {
                lemma_payload_reads_back(self@);
            }
        }
        out
    }

    /// Reads a note from a payload.
    ///
    /// The outcome is the one that [`decode_payload`] states: the note, or
    /// the error of the first check that the payload fails. A note that
    /// was read is well formed.
    pub fn decode(payload: &[u8]) -> (res: Result<Self, Error>)
        ensures
            match res {
                Ok(doc) => decode_payload(payload@) == Ok::<PlainTextView, Error>(doc@)
                    && doc@.well_formed(),
                Err(e) => decode_payload(payload@) == Err::<PlainTextView, Error>(e),
            },
    {
        let cut: usize = find_byte(payload, 0, IMAGE_SEP);
        assert(payload@.skip(0) =~= payload@);
        let text: &[u8] = slice_subrange(payload, 0, cut);
        match text_from_utf8(slice_to_vec(text)) {
            Ok(_) => {},
            Err(e) => {
                return Err(e);
            },
        }
        let images: Vec<Vec<u8>> = if cut < payload.len() {
            match decode_images(slice_subrange(payload, cut + 1, payload.len())) {
                Ok(images) => images,
                Err(e) => {
                    return Err(e);
                },
            }
        } else {
            let none: Vec<Vec<u8>> = Vec::new();
            assert(image_views(none@) =~= Seq::<Seq<u8>>::empty());
            none
        };
        let colon: usize = find_byte(text, 0, LIST_END);
        assert(text@.skip(0) =~= text@);
        if colon >= text.len() {
            return Err(Error::InvalidPlaintextFormat);
        }
        if colon == 0 {
            return Ok(Self::empty());
        }
        let passages: Vec<Passage> = match decode_passages(slice_subrange(text, 0, colon)) {
            Ok(passages) => passages,
            Err(e) => {
                return Err(e);
            },
        };
        proof {
            lemma_decoded_ids(text@.subrange(0, colon as int), 0);
        }
        Ok(Self::new(passages.len(), passages, images))
    }

    /// Seals the note under `password`, with a fresh random initialisation
    /// vector.
    ///
    /// Opening the record with the same password gives the note back,
    /// numbered anew, for every note that [`PlainTextView::reads_back`]
    /// allows.
    pub fn encrypt(&self, password: &str) -> (record: String)
        ensures
            exists|iv: Seq<u8>| #[trigger] seals(record@, password@, payload_bytes(self@), iv),
            self@.reads_back() ==> opened_note(password@, encode_utf8(record@)) == Ok::<
                PlainTextView,
                Error,
            >(self@.renumbered()),
    {
        encrypt(password, self)
    }

    /// Opens the record with the text `ciphertext` and reads the note in
    /// it.
    ///
    /// The outcome is the one that [`opened_note`] states: a text with
    /// fewer than three lines gives `DecryptionFail`; else the first three
    /// lines are the vector, the ciphertext and the tag.
    pub fn decrypt(password: &str, ciphertext: &str) -> (res: Result<Self, Error>)
        ensures
            match res {
                Ok(doc) => opened_note(password@, encode_utf8(ciphertext@)) == Ok::<
                    PlainTextView,
                    Error,
                >(doc@) && doc@.well_formed(),
                Err(e) => opened_note(password@, encode_utf8(ciphertext@)) == Err::<
                    PlainTextView,
                    Error,
                >(e),
            },
    {
        match split_record(ciphertext.as_bytes()) {
            Some(fields) => decrypt_fields(password, fields.0, fields.1, fields.2),
            None => Err(Error::DecryptionFail),
        }
    }
}

/// Gives the passages the identifiers `start`, `start + 1`, ... in order.
fn renumber(passages: &mut Vec<Passage>, start: usize)
    requires
        start + old(passages)@.len() <= usize::MAX,
    ensures
        passage_views(final(passages)@) == renumbered_from(
            passage_views(old(passages)@),
            start as nat,
        ),
{
    let ghost given = passage_views(passages@);
    let mut i: usize = 0;
    while i < passages.len()
        invariant
            i <= passages@.len(),
            passages@.len() == given.len(),
            start + given.len() <= usize::MAX,
            forall|j: int|
                0 <= j < i ==> (#[trigger] passages@[j])@ == (PassageView {
                    id: (start + j) as nat,
                    title: given[j].title,
                    content: given[j].content,
                }),
            forall|j: int| i <= j < passages@.len() ==> (#[trigger] passages@[j])@ == given[j],
        decreases passages@.len() - i,
    {
        passages[i].id = start + i;
        i += 1;
    }
    assert(passage_views(passages@) =~= renumbered_from(given, start as nat));
}

} // verus!

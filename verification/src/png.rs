//! The text that a PNG image carries beside its pixels.
//!
//! The image is parsed by the `png` crate; putting the text chunks in order
//! and joining them is done here.

use vstd::prelude::*;
use vstd::string::*;

verus! {

/// The text chunks of a PNG image, each kind in the order of the file. A
/// compressed text that does not decompress is `None`.
pub struct PngText {
    /// The texts of the `iTXt` chunks.
    pub international: Vec<Option<String>>,
    /// The texts of the `zTXt` chunks.
    pub compressed: Vec<Option<String>>,
    /// The texts of the `tEXt` chunks.
    pub plain: Vec<String>,
}

/// What a [`PngText`] stands for.
#[verifier::ext_equal]
pub struct PngTextView {
    pub international: Seq<Option<Seq<char>>>,
    pub compressed: Seq<Option<Seq<char>>>,
    pub plain: Seq<Seq<char>>,
}

impl View for PngText {
    type V = PngTextView;

    open spec fn view(&self) -> PngTextView {
        PngTextView {
            international: Seq::new(
                self.international@.len(),
                |i: int| option_view(self.international@[i]),
            ),
            compressed: Seq::new(
                self.compressed@.len(),
                |i: int| option_view(self.compressed@[i]),
            ),
            plain: Seq::new(self.plain@.len(), |i: int| self.plain@[i]@),
        }
    }
}

/// All the texts in the order in which they are joined: `iTXt` before
/// `zTXt` before `tEXt`.
pub open spec fn ordered_chunks(text: PngTextView) -> Seq<Option<Seq<char>>> {
    text.international + text.compressed + Seq::new(
        text.plain.len(),
        |i: int| Some(text.plain[i]),
    )
}

/// The characters of a text that may be missing.
pub open spec fn option_view(text: Option<String>) -> Option<Seq<char>> {
    match text {
        Some(text) => Some(text@),
        None => None,
    }
}

/// The text chunks that the `png` crate reads from the head of the image
/// `data`; `None` where it refuses the image.
pub uninterp spec fn png_text(data: Seq<u8>) -> Option<PngTextView>;

/// The texts joined by line feeds; `None` where one of them is missing.
pub open spec fn joined_lines(chunks: Seq<Option<Seq<char>>>) -> Option<Seq<char>>
    decreases chunks.len(),
{
    if chunks.len() == 0 {
        Some(Seq::empty())
    } else {
        match (joined_lines(chunks.drop_last()), chunks.last()) {
            (Some(before), Some(text)) => Some(
                if chunks.len() == 1 {
                    text
                } else {
                    before + seq!['\n'] + text
                },
            ),
            _ => None,
        }
    }
}

/// The text of a PNG image: its text chunks joined by line feeds; `None`
/// where the image is refused or a text does not decompress.
pub open spec fn png_metadata(data: Seq<u8>) -> Option<Seq<char>> {
    match png_text(data) {
        None => None,
        Some(text) => joined_lines(ordered_chunks(text)),
    }
}

/// Calls `png::Decoder::new`, `set_transformations`, `read_info` and
/// `Reader::info`, and `get_text` on each `iTXt` and `zTXt` chunk.
///
/// Trusted: the outcome is the one named by [`png_text`]. Each list is
/// handed out as the crate holds it, a text that fails to decompress as
/// `None`.
#[verifier::external_body]
fn read_text_chunks(data: &[u8]) -> (res: Option<PngText>)
    ensures
        match res {
            Some(text) => png_text(data@) == Some(text@),
            None => png_text(data@) is None,
        },
{
    let mut decoder = ::png::Decoder::new(std::io::Cursor::new(data));
    decoder.set_transformations(::png::Transformations::EXPAND);
    let reader = decoder.read_info().ok()?;
    let info = reader.info();
    Some(
        PngText {
            international: info.utf8_text.iter().map(|c| c.get_text().ok()).collect(),
            compressed: info.compressed_latin1_text.iter().map(|c| c.get_text().ok()).collect(),
            plain: info.uncompressed_latin1_text.iter().map(|c| c.text.clone()).collect(),
        },
    )
}

/// Appends `text` to `out` as a further line: after a line feed, unless
/// it is the first.
fn push_line(out: &mut String, first: bool, text: &str)
    ensures
        final(out)@ == if first {
            old(out)@ + text@
        } else {
            old(out)@ + seq!['\n'] + text@
        },
{
    if !first {
        proof {
            reveal_strlit("\n");
            assert("\n"@ =~= seq!['\n']);
        }
        out.append("\n");
    }
    out.append(text);
}

/// Joins the text chunks by line feeds, `iTXt` before `zTXt` before
/// `tEXt`.
///
/// `None` exactly where one of the texts is missing.
pub fn join_text_chunks(text: &PngText) -> (res: Option<String>)
    ensures
        option_view(res) == joined_lines(ordered_chunks(text@)),
{
    let ghost all = ordered_chunks(text@);
    let mut out: String = String::new();
    let mut i: usize = 0;
    while i < text.international.len()
        invariant
            i <= text.international@.len(),
            all == ordered_chunks(text@),
            joined_lines(all.take(i as int)) == Some(out@),
            i == 0 ==> out@.len() == 0,
        decreases text.international@.len() - i,
    {
        proof {
            assert(all.take(i + 1).drop_last() =~= all.take(i as int));
            assert(all.take(i + 1).last() == option_view(text.international@[i as int]));
        }
        match &text.international[i] {
            Some(line) => {
                push_line(&mut out, i == 0, line.as_str());
            },
            None => {
                proof {
                    lemma_missing_text(all, i as int);
                }
                return None;
            },
        }
        i += 1;
    }
    let mut j: usize = 0;
    while j < text.compressed.len()
        invariant
            i == text.international@.len(),
            j <= text.compressed@.len(),
            all == ordered_chunks(text@),
            joined_lines(all.take(i + j)) == Some(out@),
            i + j == 0 ==> out@.len() == 0,
        decreases text.compressed@.len() - j,
    {
        proof {
            assert(all.take(i + j + 1).drop_last() =~= all.take(i + j));
            assert(all.take(i + j + 1).last() == option_view(text.compressed@[j as int]));
        }
        match &text.compressed[j] {
            Some(line) => {
                push_line(&mut out, i == 0 && j == 0, line.as_str());
            },
            None => {
                proof {
                    lemma_missing_text(all, i + j);
                }
                return None;
            },
        }
        j += 1;
    }
    let mut k: usize = 0;
    while k < text.plain.len()
        invariant
            i == text.international@.len(),
            j == text.compressed@.len(),
            k <= text.plain@.len(),
            all == ordered_chunks(text@),
            joined_lines(all.take(i + j + k)) == Some(out@),
            i + j + k == 0 ==> out@.len() == 0,
        decreases text.plain@.len() - k,
    {
        proof {
            assert(all.take(i + j + k + 1).drop_last() =~= all.take(i + j + k));
            assert(all.take(i + j + k + 1).last() == Some(text.plain@[k as int]@));
        }
        push_line(&mut out, i == 0 && j == 0 && k == 0, text.plain[k].as_str());
        k += 1;
    }
    assert(all.take(i + j + k) =~= all);
    Some(out)
}

/// Texts of which one is missing do not join.
pub proof fn lemma_missing_text(chunks: Seq<Option<Seq<char>>>, at: int)
    requires
        0 <= at < chunks.len(),
        chunks[at] is None,
    ensures
        joined_lines(chunks) is None,
    decreases chunks.len(),
{
    if at < chunks.len() - 1 {
        lemma_missing_text(chunks.drop_last(), at);
    }
}

/// Reads the text that a PNG image carries.
///
/// Gives the texts of its text chunks, joined by line feeds, `iTXt` before
/// `zTXt` before `tEXt`; `None` where the image is refused or one of the
/// texts does not decompress.
pub fn read_png_metadata(data: &Vec<u8>) -> (res: Option<String>)
    ensures
        option_view(res) == png_metadata(data@),
{
    match read_text_chunks(data.as_slice()) {
        Some(text) => join_text_chunks(&text),
        None => None,
    }
}

} // verus!

//! Laying out one usage for a pane of a given width: the text before the
//! word and the text after it are wrapped into lines, and the word stands
//! between them as a fragment of its own.

use crate::context::space;
use vstd::prelude::*;

verus! {

/// The text that `textwrap::fill` makes of `text` for lines of `width`
/// columns.
pub uninterp spec fn filled(text: Seq<char>, width: usize) -> Seq<char>;

/// Wraps `text` with `textwrap::fill`, called with a plain width. Assumed,
/// not proved: the call returns for every text and width, and what it
/// returns depends on the two alone. [`filled`] names that text; nothing more
/// is said of it.
#[verifier::external_body]
fn fill_text(text: &str, width: usize) -> (wrapped: String)
    ensures
        wrapped@ == filled(text@, width),
{
    textwrap::fill(text, width)
}

/// The content of a [`Fragment`].
pub struct FragmentModel {
    pub text: Seq<char>,
    pub highlighted: bool,
}

/// A piece of a laid-out usage: a line of context, the gap before the word,
/// or the word itself, which alone is highlighted.
#[derive(Debug)]
pub struct Fragment {
    pub text: String,
    pub highlighted: bool,
}

impl View for Fragment {
    type V = FragmentModel;

    open spec fn view(&self) -> FragmentModel {
        FragmentModel { text: self.text@, highlighted: self.highlighted }
    }
}

impl DeepView for Fragment {
    type V = FragmentModel;

    open spec fn deep_view(&self) -> FragmentModel {
        self@
    }
}

/// The lines of a text: what stands between its line feeds. A text without a
/// line feed is one line, and so is the empty text.
pub open spec fn lines_of(text: Seq<char>) -> Seq<Seq<char>>
    decreases text.len(),
{
    if text.len() == 0 {
        seq![Seq::<char>::empty()]
    } else {
        let lines = lines_of(text.drop_last());
        if text.last() == '\n' {
            lines.push(Seq::empty())
        } else {
            lines.drop_last().push(lines.last().push(text.last()))
        }
    }
}

/// Lines as fragments that are not highlighted.
pub open spec fn plain_fragments(lines: Seq<Seq<char>>) -> Seq<FragmentModel> {
    Seq::new(lines.len(), |i: int| FragmentModel { text: lines[i], highlighted: false })
}

/// The fragments of a usage whose context has been wrapped already: the
/// lines before the word, if any text stands before it; a space where the
/// last of these lines is not empty; the word, highlighted; the lines after
/// the word.
pub open spec fn paragraph_of(
    wrapped_before: Option<Seq<char>>,
    word: Seq<char>,
    wrapped_after: Seq<char>,
) -> Seq<FragmentModel> {
    let front = match wrapped_before {
        Some(text) => plain_fragments(lines_of(text)),
        None => Seq::empty(),
    };
    let gap = if front.len() > 0 && front.last().text.len() > 0 {
        seq![FragmentModel { text: space(), highlighted: false }]
    } else {
        Seq::empty()
    };
    front + gap + seq![FragmentModel { text: word, highlighted: true }] + plain_fragments(
        lines_of(wrapped_after),
    )
}

/// The text before the word as it is handed to the wrapping: absent where
/// nothing stands before the word.
pub open spec fn wrapped_before(before: Seq<char>, width: usize) -> Option<Seq<char>> {
    if before.len() == 0 {
        None
    } else {
        Some(filled(before, width))
    }
}

/// There is always at least one line.
pub proof fn lemma_lines_of_nonempty(text: Seq<char>)
    ensures
        lines_of(text).len() > 0,
    decreases text.len(),
{
    if text.len() > 0 {
        lemma_lines_of_nonempty(text.drop_last());
    }
}

/// Splits a text at its line feeds.
pub fn split_lines(text: &str) -> (lines: Vec<String>)
    ensures
        lines.deep_view() == lines_of(text@),
{
    let mut lines: Vec<String> = Vec::new();
    let mut line = String::new();
    for c in it: text.chars()
        invariant
            it.seq() == text@,
            lines.deep_view().push(line@) == lines_of(text@.take(it.index())),
    {
        let ghost done = lines.deep_view();
        let ghost seen = it.index();
        proof {
            assert(text@.take(seen + 1).drop_last() =~= text@.take(seen));
            lemma_lines_of_nonempty(text@.take(seen));
            assert(done.push(line@).drop_last() =~= done);
        }
        if c == '\n' {
            lines.push(line);
            line = String::new();
            assert(lines.deep_view() =~= lines_of(text@.take(seen)));
        } else {
            line.push(c);
        }
    }
    lines.push(line);
    assert(text@.take(text@.len() as int) =~= text@);
    lines
}

/// Appends the lines of a text to a paragraph, as fragments that are not
/// highlighted.
fn push_lines(paragraph: &mut Vec<Fragment>, text: &str)
    ensures
        final(paragraph).deep_view() == old(paragraph).deep_view() + plain_fragments(
            lines_of(text@),
        ),
{
    let ghost start = paragraph.deep_view();
    let ghost all = plain_fragments(lines_of(text@));
    let lines = split_lines(text);
    let ghost line_views = lines.deep_view();
    for line in it: lines
        invariant
            it.seq().len() == line_views.len(),
            forall|i: int| 0 <= i < it.seq().len() ==> (#[trigger] it.seq()[i])@ == line_views[i],
            all == plain_fragments(line_views),
            paragraph.deep_view() == start + all.take(it.index()),
    {
        let ghost before = paragraph.deep_view();
        let ghost at = it.index();
        paragraph.push(Fragment { text: line, highlighted: false });
        assert(paragraph.deep_view() =~= before.push(all[at]));
        assert(paragraph.deep_view() =~= start + all.take(at + 1));
    }
    assert(all.take(all.len() as int) =~= all);
}

/// Lays out a usage whose context has been wrapped already: the lines before
/// the word, a space if the last of them is not empty, the word as the one
/// highlighted fragment, the lines after the word. Where nothing stands
/// before the word, the paragraph begins with the word.
pub fn paragraph_from_wrapped(
    wrapped_before: Option<&str>,
    word: &str,
    wrapped_after: &str,
) -> (paragraph: Vec<Fragment>)
    ensures
        paragraph.deep_view() == paragraph_of(
            match wrapped_before {
                Some(text) => Some(text@),
                None => None,
            },
            word@,
            wrapped_after@,
        ),
{
    let mut paragraph: Vec<Fragment> = Vec::new();
    assert(paragraph.deep_view() =~= Seq::<FragmentModel>::empty());
    match wrapped_before {
        Some(text) => {
            push_lines(&mut paragraph, text);
            assert(paragraph.deep_view() =~= plain_fragments(lines_of(text@)));
        },
        None => {},
    }
    let ghost front = paragraph.deep_view();
    let gap = paragraph.len() > 0 && !paragraph[paragraph.len() - 1].text.as_str().is_empty();
    if gap {
        paragraph.push(Fragment { text: " ".to_owned(), highlighted: false });
    }
    let ghost with_gap = paragraph.deep_view();
    paragraph.push(Fragment { text: word.to_owned(), highlighted: true });
    let ghost with_word = paragraph.deep_view();
    push_lines(&mut paragraph, wrapped_after);
    proof {
        let gap_model = if front.len() > 0 && front.last().text.len() > 0 {
            seq![FragmentModel { text: space(), highlighted: false }]
        } else {
            Seq::<FragmentModel>::empty()
        };
        assert(with_gap =~= front + gap_model);
        assert(with_word =~= front + gap_model + seq![
            FragmentModel { text: word@, highlighted: true },
        ]);
    }
    paragraph
}

/// Lays out a usage for a pane of `width` columns: the text before the word
/// and the text after it are wrapped into lines of that width, and the word
/// stands between them as the one highlighted fragment.
pub fn usage_paragraph(before: &str, word: &str, after: &str, width: usize) -> (paragraph:
    Vec<Fragment>)
    ensures
        paragraph.deep_view() == paragraph_of(
            wrapped_before(before@, width),
            word@,
            filled(after@, width),
        ),
{
    let back = fill_text(after, width);
    if before.is_empty() {
        paragraph_from_wrapped(None, word, back.as_str())
    } else {
        let front = fill_text(before, width);
        paragraph_from_wrapped(Some(front.as_str()), word, back.as_str())
    }
}

} // verus!

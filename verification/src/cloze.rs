//! The cloze collector: one note for each cloze block.

use vstd::prelude::*;
use crate::document::{
    elements_view, parts_view, ClozeLines, ClozeLinesView, ClozePart, ClozePartView, Element,
};
use crate::error::MathConvertError;
use crate::headings::{push_trail, trail};
use crate::render::{
    element_pictures, element_text, elements_pictures, elements_text, pictures_view, push_element,
    push_elements, Answers, Picture, PictureView,
};
use crate::store::NoteId;
use crate::text::{
    chars_of, decimal, digits_value, lemma_digits_value_bound, lemma_pow10_fits, number_of,
    push_decimal, push_text, string_from, strings_view,
};

verus! {

/// The note that a cloze block stands for.
#[derive(Debug, PartialEq, Eq)]
pub struct ClozeData {
    /// What the flashcard shows: the block with its clozes numbered, and the
    /// breadcrumb.
    pub contents: String,
    /// The identifier that the source holds for the note, if it holds one.
    pub note_id: Option<NoteId>,
    /// The images that the note needs.
    pub pictures: Vec<Picture>,
    /// How many characters of the source follow the block.
    pub remaining_length: usize,
}

pub struct ClozeDataView {
    pub contents: Seq<char>,
    pub note_id: Option<u64>,
    pub pictures: Seq<PictureView>,
    pub remaining_length: nat,
}

impl View for ClozeData {
    type V = ClozeDataView;

    open spec fn view(&self) -> ClozeDataView {
        ClozeDataView {
            contents: self.contents@,
            note_id: match self.note_id {
                Some(id) => Some(id.0),
                None => None,
            },
            pictures: pictures_view(self.pictures@),
            remaining_length: self.remaining_length as nat,
        }
    }
}

/// The views of a list of notes, in order.
pub open spec fn notes_view(v: Seq<ClozeData>) -> Seq<ClozeDataView> {
    Seq::new(v.len(), |i: int| v[i]@)
}

/// Appending one note appends its view.
pub proof fn lemma_notes_view_push(v: Seq<ClozeData>, c: ClozeData)
    ensures
        notes_view(v.push(c)) == notes_view(v).push(c@),
{
    assert(notes_view(v.push(c)) =~= notes_view(v).push(c@));
}

/// A cloze in the store's own form: `{{c`, its number, `::`, its text, `}}`.
pub open spec fn cloze_text(number: nat, inner: Seq<char>) -> Seq<char> {
    seq!['{', '{', 'c'] + decimal(number) + seq![':', ':'] + inner + seq!['}', '}']
}

/// How many of the parts are clozes.
pub open spec fn clozes_in(parts: Seq<ClozePartView>) -> nat
    decreases parts.len(),
{
    if parts.len() == 0 {
        0
    } else {
        clozes_in(parts.drop_last()) + (if parts.last() is Cloze {
            1nat
        } else {
            0nat
        })
    }
}

/// A part as text: a cloze with the given number, or an element.
pub open spec fn part_text(part: ClozePartView, number: nat, answers: Answers) -> Result<
    Seq<char>,
    MathConvertError,
> {
    match part {
        ClozePartView::Cloze(es) => match elements_text(es, answers) {
            Ok(t) => Ok(cloze_text(number, t)),
            Err(e) => Err(e),
        },
        ClozePartView::Element(e) => element_text(e, answers),
    }
}

/// The pictures that a part brings.
pub open spec fn part_pictures(part: ClozePartView, answers: Answers) -> Seq<PictureView> {
    match part {
        ClozePartView::Cloze(es) => elements_pictures(es, answers),
        ClozePartView::Element(e) => element_pictures(e, answers),
    }
}

/// What follows the first cloze of a block, as text: the clozes are
/// numbered from two on, in order.
pub open spec fn parts_text(parts: Seq<ClozePartView>, answers: Answers) -> Result<
    Seq<char>,
    MathConvertError,
>
    decreases parts.len(),
{
    if parts.len() == 0 {
        Ok(Seq::empty())
    } else {
        match parts_text(parts.drop_last(), answers) {
            Err(e) => Err(e),
            Ok(t) => match part_text(parts.last(), 2 + clozes_in(parts.drop_last()), answers) {
                Err(e) => Err(e),
                Ok(u) => Ok(t + u),
            },
        }
    }
}

/// The pictures that the parts bring, in order.
pub open spec fn parts_pictures(parts: Seq<ClozePartView>, answers: Answers) -> Seq<PictureView>
    decreases parts.len(),
{
    if parts.len() == 0 {
        Seq::empty()
    } else {
        parts_pictures(parts.drop_last(), answers) + part_pictures(parts.last(), answers)
    }
}

/// A cloze block as text: what precedes the first cloze, that cloze with
/// the number one, and what follows. The numbering starts anew in every
/// block.
pub open spec fn block_text(block: ClozeLinesView, answers: Answers) -> Result<
    Seq<char>,
    MathConvertError,
> {
    match elements_text(block.prefix, answers) {
        Err(e) => Err(e),
        Ok(p) => match elements_text(block.first, answers) {
            Err(e) => Err(e),
            Ok(f) => match parts_text(block.rest, answers) {
                Err(e) => Err(e),
                Ok(r) => Ok(p + cloze_text(1, f) + r),
            },
        },
    }
}

/// The pictures that a cloze block brings, in order.
pub open spec fn block_pictures(block: ClozeLinesView, answers: Answers) -> Seq<PictureView> {
    elements_pictures(block.prefix, answers) + elements_pictures(block.first, answers)
        + parts_pictures(block.rest, answers)
}

/// The line break of a flashcard.
pub open spec fn line_break() -> Seq<char> {
    seq!['<', 'b', 'r', '>']
}

/// The note that a cloze block stands for, under the given path and
/// headings: the text of the block, a line break, the path, and the trail of
/// the headings; the identifier that the block's comment holds; the pictures
/// of the block; and how much of the source follows the block.
pub open spec fn note_of(
    block: ClozeLinesView,
    stack: Seq<Seq<char>>,
    path: Seq<char>,
    answers: Answers,
) -> Result<ClozeDataView, MathConvertError> {
    match block_text(block, answers) {
        Err(e) => Err(e),
        Ok(t) => Ok(
            ClozeDataView {
                contents: t + line_break() + path + trail(stack),
                note_id: match block.note_id {
                    Some(n) => Some(digits_value(n.digits) as u64),
                    None => None,
                },
                pictures: block_pictures(block, answers),
                remaining_length: block.remaining,
            },
        ),
    }
}

fn push_cloze(
    out: &mut Vec<char>,
    number: usize,
    elements: &Vec<Element>,
    pictures: &mut Vec<Picture>,
    answers: &Answers,
) -> (r: Result<(), MathConvertError>)
    ensures
        match r {
            Ok(_) => elements_text(elements_view(elements@), *answers) is Ok && final(out)@
                == old(out)@ + cloze_text(
                number as nat,
                elements_text(elements_view(elements@), *answers)->Ok_0,
            ) && pictures_view(final(pictures)@) == pictures_view(old(pictures)@)
                + elements_pictures(elements_view(elements@), *answers),
            Err(e) => elements_text(elements_view(elements@), *answers) == Err::<
                Seq<char>,
                MathConvertError,
            >(e),
        },
{
    out.push('{');
    out.push('{');
    out.push('c');
    push_decimal(out, number as u64);
    out.push(':');
    out.push(':');
    let ghost opened = out@;
    match push_elements(out, elements, pictures, answers) {
        Err(e) => Err(e),
        Ok(_) => {
            out.push('}');
            out.push('}');
            proof {
                let inner = elements_text(elements_view(elements@), *answers)->Ok_0;
                assert(opened =~= old(out)@ + (seq!['{', '{', 'c'] + decimal(number as nat)
                    + seq![':', ':']));
                assert(out@ =~= old(out)@ + cloze_text(number as nat, inner));
            }
            Ok(())
        },
    }
}

/// Where the text of the first `k` parts is an error, so is the text of all
/// of them: the same error.
pub proof fn lemma_parts_text_fails(parts: Seq<ClozePartView>, k: int, answers: Answers)
    requires
        0 <= k <= parts.len(),
        parts_text(parts.take(k), answers) is Err,
    ensures
        parts_text(parts, answers) == parts_text(parts.take(k), answers),
    decreases parts.len() - k,
{
    if k < parts.len() {
        assert(parts.take(k + 1).drop_last() =~= parts.take(k));
        lemma_parts_text_fails(parts, k + 1, answers);
    } else {
        assert(parts.take(k) =~= parts);
    }
}

/// No more of the parts are clozes than there are parts.
pub proof fn lemma_clozes_in_bound(parts: Seq<ClozePartView>)
    ensures
        clozes_in(parts) <= parts.len(),
    decreases parts.len(),
{
    if parts.len() > 0 {
        lemma_clozes_in_bound(parts.drop_last());
    }
}

fn push_parts(
    out: &mut Vec<char>,
    parts: &Vec<ClozePart>,
    pictures: &mut Vec<Picture>,
    answers: &Answers,
) -> (r: Result<(), MathConvertError>)
    requires
        parts@.len() < usize::MAX,
    ensures
        match r {
            Ok(_) => parts_text(parts_view(parts@), *answers) is Ok && final(out)@ == old(out)@
                + parts_text(parts_view(parts@), *answers)->Ok_0 && pictures_view(
                final(pictures)@,
            ) == pictures_view(old(pictures)@) + parts_pictures(parts_view(parts@), *answers),
            Err(e) => parts_text(parts_view(parts@), *answers) == Err::<
                Seq<char>,
                MathConvertError,
            >(e),
        },
{
    let ghost ps = parts_view(parts@);
    let mut i: usize = 0;
    let mut number: usize = 1;
    proof {
        assert(ps.take(0) =~= Seq::<ClozePartView>::empty());
        assert(out@ + Seq::<char>::empty() =~= out@);
        assert(pictures_view(pictures@) + Seq::<PictureView>::empty() =~= pictures_view(
            pictures@,
        ));
    }
    while i < parts.len()
        invariant
            i <= parts@.len() < usize::MAX,
            ps == parts_view(parts@),
            number == 1 + clozes_in(ps.take(i as int)),
            parts_text(ps.take(i as int), *answers) is Ok,
            out@ == old(out)@ + parts_text(ps.take(i as int), *answers)->Ok_0,
            pictures_view(pictures@) == pictures_view(old(pictures)@) + parts_pictures(
                ps.take(i as int),
                *answers,
            ),
        decreases parts@.len() - i,
    {
        proof {
            assert(ps.take(i + 1).drop_last() =~= ps.take(i as int));
            assert(ps.take(i + 1).last() == parts@[i as int]@);
            lemma_clozes_in_bound(ps.take(i as int));
        }
        let result = match &parts[i] {
            ClozePart::Cloze(elements) => {
                number += 1;
                push_cloze(out, number, elements, pictures, answers)
            },
            ClozePart::Element(element) => push_element(out, element, pictures, answers),
        };
        match result {
            Err(e) => {
                proof {
                    lemma_parts_text_fails(ps, i + 1, *answers);
                }
                return Err(e);
            },
            Ok(_) => {
                proof {
                    let t = parts_text(ps.take(i as int), *answers)->Ok_0;
                    let u = part_text(
                        ps[i as int],
                        2 + clozes_in(ps.take(i as int)),
                        *answers,
                    )->Ok_0;
                    assert(old(out)@ + (t + u) =~= (old(out)@ + t) + u);
                    let p = parts_pictures(ps.take(i as int), *answers);
                    let q = part_pictures(ps[i as int], *answers);
                    assert(pictures_view(old(pictures)@) + (p + q) =~= (pictures_view(
                        old(pictures)@,
                    ) + p) + q);
                }
            },
        }
        i += 1;
    }
    assert(ps.take(i as int) =~= ps);
    Ok(())
}

/// Makes the note of a cloze block and appends it to `clozes`. On an error
/// `clozes` stays as it is.
pub fn handle_cloze_lines(
    cloze_lines: &ClozeLines,
    headings: &Vec<String>,
    clozes: &mut Vec<ClozeData>,
    path_str: &str,
    answers: &Answers,
) -> (r: Result<(), MathConvertError>)
    requires
        cloze_lines@.wf(),
    ensures
        match r {
            Ok(_) => note_of(cloze_lines@, strings_view(headings@), path_str@, *answers) is Ok
                && notes_view(final(clozes)@) == notes_view(old(clozes)@).push(
                note_of(cloze_lines@, strings_view(headings@), path_str@, *answers)->Ok_0,
            ),
            Err(e) => note_of(cloze_lines@, strings_view(headings@), path_str@, *answers)
                == Err::<ClozeDataView, MathConvertError>(e) && *final(clozes) == *old(clozes),
        },
{
    let mut out: Vec<char> = Vec::new();
    let mut pictures: Vec<Picture> = Vec::new();
    match push_elements(&mut out, &cloze_lines.prefix, &mut pictures, answers) {
        Err(e) => {
            return Err(e);
        },
        Ok(_) => {},
    }
    match push_cloze(&mut out, 1, &cloze_lines.first, &mut pictures, answers) {
        Err(e) => {
            return Err(e);
        },
        Ok(_) => {},
    }
    match push_parts(&mut out, &cloze_lines.rest, &mut pictures, answers) {
        Err(e) => {
            return Err(e);
        },
        Ok(_) => {},
    }
    let ghost body = block_text(cloze_lines@, *answers)->Ok_0;
    assert(out@ =~= body);
    assert(pictures_view(pictures@) =~= block_pictures(cloze_lines@, *answers));
    let note_id = match &cloze_lines.note_id {
        Some(comment) => {
            let digits = chars_of(comment.digits.as_str());
            proof {
                lemma_digits_value_bound(digits@);
                lemma_pow10_fits(digits@.len());
            }
            Some(NoteId(number_of(digits.as_slice())))
        },
        None => None,
    };
    out.push('<');
    out.push('b');
    out.push('r');
    out.push('>');
    push_text(&mut out, path_str);
    push_trail(&mut out, headings);
    assert(out@ =~= body + line_break() + path_str@ + trail(strings_view(headings@)));
    let note = ClozeData {
        contents: string_from(&out),
        note_id,
        pictures,
        remaining_length: cloze_lines.remaining,
    };
    proof {
        lemma_notes_view_push(clozes@, note);
    }
    clozes.push(note);
    Ok(())
}

} // verus!

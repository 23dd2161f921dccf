//! The pass over a parsed note: headings go to the heading stack, tags are
//! gathered, and every cloze block becomes a note.

use vstd::prelude::*;
use crate::cloze::{handle_cloze_lines, note_of, notes_view, ClozeData, ClozeDataView};
use crate::document::{
    elements_view, parts_view, ClozeLinesView, ClozePart, ClozePartView, Document, Element,
    ElementView, FileElement, FileElementView,
};
use crate::error::MathConvertError;
use crate::headings::{handle_heading, heading_applied};
use crate::render::{
    elements_text, image_kind, is_image_path, needs_reencoding, typst_form, typst_source, Answers,
    ImageKind, Picture,
};
use crate::text::{lemma_strings_view_push, strings_view};

verus! {

/// What a pass over a note gathers.
#[derive(Debug, PartialEq, Eq)]
pub struct Collected {
    /// The tags of the note, in order, each with its `#`.
    pub tags: Vec<String>,
    /// The heading stack at the end of the note.
    pub headings: Vec<String>,
    /// The notes of the cloze blocks, in order.
    pub clozes: Vec<ClozeData>,
}

pub struct CollectedView {
    pub tags: Seq<Seq<char>>,
    pub headings: Seq<Seq<char>>,
    pub clozes: Seq<ClozeDataView>,
}

impl View for Collected {
    type V = CollectedView;

    open spec fn view(&self) -> CollectedView {
        CollectedView {
            tags: strings_view(self.tags@),
            headings: strings_view(self.headings@),
            clozes: notes_view(self.clozes@),
        }
    }
}

/// What is gathered before the first element.
pub open spec fn nothing_collected() -> CollectedView {
    CollectedView { tags: Seq::empty(), headings: Seq::empty(), clozes: Seq::empty() }
}

/// What is gathered after one more element. A cloze block adds its note,
/// under the headings that stand at that point; a heading changes the
/// stack; a tag is added; anything else changes nothing.
pub open spec fn collect_step(
    state: CollectedView,
    element: FileElementView,
    path: Seq<char>,
    answers: Answers,
) -> Result<CollectedView, MathConvertError> {
    match element {
        FileElementView::ClozeLines(block) => match note_of(
            block,
            state.headings,
            path,
            answers,
        ) {
            Ok(note) => Ok(CollectedView { clozes: state.clozes.push(note), ..state }),
            Err(e) => Err(e),
        },
        FileElementView::Heading(h) => match elements_text(h.elements, answers) {
            Ok(text) => Ok(
                CollectedView { headings: heading_applied(state.headings, h.level, text), ..state },
            ),
            Err(e) => Err(e),
        },
        FileElementView::Tag(t) => Ok(CollectedView { tags: state.tags.push(t), ..state }),
        _ => Ok(state),
    }
}

/// What a pass over the document gathers, or the error of the first math
/// span that could not be converted.
pub open spec fn collected(doc: Seq<FileElementView>, path: Seq<char>, answers: Answers) -> Result<
    CollectedView,
    MathConvertError,
>
    decreases doc.len(),
{
    if doc.len() == 0 {
        Ok(nothing_collected())
    } else {
        match collected(doc.drop_last(), path, answers) {
            Err(e) => Err(e),
            Ok(state) => collect_step(state, doc.last(), path, answers),
        }
    }
}

/// Where the pass over the first `k` elements ends in an error, so does the
/// pass over all of them: in the same error.
pub proof fn lemma_collected_fails(
    doc: Seq<FileElementView>,
    k: int,
    path: Seq<char>,
    answers: Answers,
)
    requires
        0 <= k <= doc.len(),
        collected(doc.take(k), path, answers) is Err,
    ensures
        collected(doc, path, answers) == collected(doc.take(k), path, answers),
    decreases doc.len() - k,
{
    if k < doc.len() {
        assert(doc.take(k + 1).drop_last() =~= doc.take(k));
        lemma_collected_fails(doc, k + 1, path, answers);
    } else {
        assert(doc.take(k) =~= doc);
    }
}

/// Passes over a parsed note and gathers its tags and the notes of its
/// cloze blocks. `path_str` is the note's path as the start of the
/// breadcrumb.
pub fn collect(doc: &Document, path_str: &str, answers: &Answers) -> (r: Result<
    Collected,
    MathConvertError,
>)
    requires
        doc.wf(),
    ensures
        match r {
            Ok(c) => collected(doc@, path_str@, *answers) == Ok::<
                CollectedView,
                MathConvertError,
            >(c@),
            Err(e) => collected(doc@, path_str@, *answers) == Err::<
                CollectedView,
                MathConvertError,
            >(e),
        },
{
    let mut state = Collected { tags: Vec::new(), headings: Vec::new(), clozes: Vec::new() };
    let mut i: usize = 0;
    proof {
        assert(doc@.take(0) =~= Seq::<FileElementView>::empty());
        assert(state@.tags =~= Seq::<Seq<char>>::empty());
        assert(state@.headings =~= Seq::<Seq<char>>::empty());
        assert(state@.clozes =~= Seq::<ClozeDataView>::empty());
    }
    while i < doc.elements.len()
        invariant
            i <= doc.elements@.len(),
            doc.wf(),
            collected(doc@.take(i as int), path_str@, *answers) == Ok::<
                CollectedView,
                MathConvertError,
            >(state@),
        decreases doc.elements@.len() - i,
    {
        proof {
            assert(doc@.take(i + 1).drop_last() =~= doc@.take(i as int));
            assert(doc@.take(i + 1).last() == doc.elements@[i as int]@);
            assert(doc@[i as int].wf());
        }
        let ghost before = state@;
        let result = match &doc.elements[i] {
            FileElement::ClozeLines(block) => handle_cloze_lines(
                block,
                &state.headings,
                &mut state.clozes,
                path_str,
                answers,
            ),
            FileElement::Heading(h) => {
                let mut unused: Vec<Picture> = Vec::new();
                handle_heading(h, &mut state.headings, &mut unused, answers)
            },
            FileElement::Tag(t) => {
                proof {
                    lemma_strings_view_push(state.tags@, *t);
                }
                state.tags.push(t.clone());
                Ok(())
            },
            _ => Ok(()),
        };
        match result {
            Err(e) => {
                proof {
                    lemma_collected_fails(doc@, i + 1, path_str@, *answers);
                }
                return Err(e);
            },
            Ok(_) => {
                assert(collect_step(before, doc@[i as int], path_str@, *answers) == Ok::<
                    CollectedView,
                    MathConvertError,
                >(state@));
            },
        }
        i += 1;
    }
    assert(doc@.take(i as int) =~= doc@);
    Ok(state)
}

/// A question that the rendering of a note depends on.
#[derive(Debug, PartialEq, Eq)]
pub enum Query {
    /// Is this math, given in its Typst form, Typst, and if so, what is it
    /// in LaTeX?
    Math(String),
    /// Is this image on disk? `reencode` says that it has to be encoded anew
    /// before it can be stored.
    Image { target: String, reencode: bool },
}

pub enum QueryView {
    Math(Seq<char>),
    Image { target: Seq<char>, reencode: bool },
}

impl View for Query {
    type V = QueryView;

    open spec fn view(&self) -> QueryView {
        match *self {
            Query::Math(s) => QueryView::Math(s@),
            Query::Image { target, reencode } => QueryView::Image { target: target@, reencode },
        }
    }
}

/// The views of a list of questions, in order.
pub open spec fn queries_view(v: Seq<Query>) -> Seq<QueryView> {
    Seq::new(v.len(), |i: int| v[i]@)
}

/// The questions that an element raises: one for a math span, unless
/// all math is taken for LaTeX, and one for an embedded link whose target
/// names an image.
pub open spec fn element_queries(e: ElementView, typst: bool) -> Seq<QueryView> {
    match e {
        ElementView::Math(m) => if typst {
            seq![QueryView::Math(typst_source(m))]
        } else {
            Seq::empty()
        },
        ElementView::Link(l) => if l.embed && is_image_path(l.target) {
            seq![QueryView::Image { target: l.target, reencode: needs_reencoding(l.target) }]
        } else {
            Seq::empty()
        },
        _ => Seq::empty(),
    }
}

/// The questions that the elements raise, in order.
pub open spec fn elements_queries(es: Seq<ElementView>, typst: bool) -> Seq<QueryView>
    decreases es.len(),
{
    if es.len() == 0 {
        Seq::empty()
    } else {
        elements_queries(es.drop_last(), typst) + element_queries(es.last(), typst)
    }
}

/// The questions that the parts of a cloze block raise, in order.
pub open spec fn parts_queries(parts: Seq<ClozePartView>, typst: bool) -> Seq<QueryView>
    decreases parts.len(),
{
    if parts.len() == 0 {
        Seq::empty()
    } else {
        parts_queries(parts.drop_last(), typst) + (match parts.last() {
            ClozePartView::Cloze(es) => elements_queries(es, typst),
            ClozePartView::Element(e) => element_queries(e, typst),
        })
    }
}

/// The questions that a cloze block raises, in order.
pub open spec fn block_queries(block: ClozeLinesView, typst: bool) -> Seq<QueryView> {
    elements_queries(block.prefix, typst) + elements_queries(block.first, typst) + parts_queries(
        block.rest,
        typst,
    )
}

/// The questions that a note raises, in order: those of its headings and
/// of its cloze blocks. What stands outside them is not rendered. With
/// `typst` off, all math is taken for LaTeX and nothing is asked about it.
pub open spec fn document_queries(doc: Seq<FileElementView>, typst: bool) -> Seq<QueryView>
    decreases doc.len(),
{
    if doc.len() == 0 {
        Seq::empty()
    } else {
        document_queries(doc.drop_last(), typst) + (match doc.last() {
            FileElementView::ClozeLines(block) => block_queries(block, typst),
            FileElementView::Heading(h) => elements_queries(h.elements, typst),
            _ => Seq::empty(),
        })
    }
}

fn push_element_queries(out: &mut Vec<Query>, element: &Element, typst: bool)
    ensures
        queries_view(final(out)@) == queries_view(old(out)@) + element_queries(element@, typst),
{
    match element {
        Element::Math(m) => {
            if typst {
                let q = Query::Math(typst_form(m));
                assert(queries_view(out@.push(q)) =~= queries_view(out@) + seq![q@]);
                out.push(q);
            } else {
                assert(queries_view(out@) + Seq::<QueryView>::empty() =~= queries_view(out@));
            }
        },
        Element::Link(l) => {
            let kind = if l.embed {
                image_kind(l.target.as_str())
            } else {
                ImageKind::NoImage
            };
            let reencode = match kind {
                ImageKind::Reencode => true,
                _ => false,
            };
            match kind {
                ImageKind::NoImage => {
                    assert(queries_view(out@) + Seq::<QueryView>::empty() =~= queries_view(
                        out@,
                    ));
                },
                _ => {
                    let q = Query::Image { target: l.target.clone(), reencode };
                    assert(queries_view(out@.push(q)) =~= queries_view(out@) + seq![q@]);
                    out.push(q);
                },
            }
        },
        _ => {
            assert(queries_view(out@) + Seq::<QueryView>::empty() =~= queries_view(out@));
        },
    }
}

fn push_elements_queries(out: &mut Vec<Query>, elements: &Vec<Element>, typst: bool)
    ensures
        queries_view(final(out)@) == queries_view(old(out)@) + elements_queries(
            elements_view(elements@),
            typst,
        ),
{
    let ghost es = elements_view(elements@);
    let mut i: usize = 0;
    proof {
        assert(es.take(0) =~= Seq::<ElementView>::empty());
        assert(queries_view(out@) + Seq::<QueryView>::empty() =~= queries_view(out@));
    }
    while i < elements.len()
        invariant
            i <= elements@.len(),
            es == elements_view(elements@),
            queries_view(out@) == queries_view(old(out)@) + elements_queries(
                es.take(i as int),
                typst,
            ),
        decreases elements@.len() - i,
    {
        proof {
            assert(es.take(i + 1).drop_last() =~= es.take(i as int));
            assert(es.take(i + 1).last() == elements@[i as int]@);
            let p = elements_queries(es.take(i as int), typst);
            let q = element_queries(es[i as int], typst);
            assert(queries_view(old(out)@) + (p + q) =~= (queries_view(old(out)@) + p) + q);
        }
        push_element_queries(out, &elements[i], typst);
        i += 1;
    }
    assert(es.take(i as int) =~= es);
}

fn push_parts_queries(out: &mut Vec<Query>, parts: &Vec<ClozePart>, typst: bool)
    ensures
        queries_view(final(out)@) == queries_view(old(out)@) + parts_queries(
            parts_view(parts@),
            typst,
        ),
{
    let ghost ps = parts_view(parts@);
    let mut i: usize = 0;
    proof {
        assert(ps.take(0) =~= Seq::<ClozePartView>::empty());
        assert(queries_view(out@) + Seq::<QueryView>::empty() =~= queries_view(out@));
    }
    while i < parts.len()
        invariant
            i <= parts@.len(),
            ps == parts_view(parts@),
            queries_view(out@) == queries_view(old(out)@) + parts_queries(
                ps.take(i as int),
                typst,
            ),
        decreases parts@.len() - i,
    {
        proof {
            assert(ps.take(i + 1).drop_last() =~= ps.take(i as int));
            assert(ps.take(i + 1).last() == parts@[i as int]@);
            let p = parts_queries(ps.take(i as int), typst);
            let q = match ps[i as int] {
                ClozePartView::Cloze(es) => elements_queries(es, typst),
                ClozePartView::Element(e) => element_queries(e, typst),
            };
            assert(queries_view(old(out)@) + (p + q) =~= (queries_view(old(out)@) + p) + q);
        }
        match &parts[i] {
            ClozePart::Cloze(elements) => push_elements_queries(out, elements, typst),
            ClozePart::Element(element) => push_element_queries(out, element, typst),
        }
        i += 1;
    }
    assert(ps.take(i as int) =~= ps);
}

/// The questions that a note raises, in the order in which its rendering
/// comes to them. With `disable_typst` all math is taken for LaTeX, and
/// nothing is asked about it.
pub fn queries(doc: &Document, disable_typst: bool) -> (r: Vec<Query>)
    ensures
        queries_view(r@) == document_queries(doc@, !disable_typst),
{
    let typst = !disable_typst;
    let mut out: Vec<Query> = Vec::new();
    let mut i: usize = 0;
    proof {
        assert(doc@.take(0) =~= Seq::<FileElementView>::empty());
        assert(queries_view(out@) =~= Seq::<QueryView>::empty());
    }
    while i < doc.elements.len()
        invariant
            i <= doc.elements@.len(),
            queries_view(out@) == document_queries(doc@.take(i as int), typst),
        decreases doc.elements@.len() - i,
    {
        proof {
            assert(doc@.take(i + 1).drop_last() =~= doc@.take(i as int));
            assert(doc@.take(i + 1).last() == doc.elements@[i as int]@);
        }
        match &doc.elements[i] {
            FileElement::ClozeLines(block) => {
                let ghost start = queries_view(out@);
                push_elements_queries(&mut out, &block.prefix, typst);
                push_elements_queries(&mut out, &block.first, typst);
                push_parts_queries(&mut out, &block.rest, typst);
                assert(queries_view(out@) =~= start + block_queries(block@, typst));
            },
            FileElement::Heading(h) => {
                push_elements_queries(&mut out, &h.elements, typst);
            },
            _ => {
                assert(queries_view(out@) + Seq::<QueryView>::empty() =~= queries_view(out@));
            },
        }
        i += 1;
    }
    assert(doc@.take(i as int) =~= doc@);
    out
}

} // verus!

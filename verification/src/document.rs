//! The parsed form of a Markdown note: an ordered sequence of elements.
//!
//! Each type has a mathematical view in which text is a sequence of
//! characters and lists are sequences. The grammar is stated over the views.

use vstd::prelude::*;
use crate::text::all_digits;

verus! {

/// A code span: `` `text` `` inline, or fenced by three backticks.
#[derive(Debug, Clone, PartialEq, Eq)]
pub struct Code {
    pub multiline: bool,
    /// The text between the delimiters, verbatim.
    pub text: String,
}

pub struct CodeView {
    pub multiline: bool,
    pub text: Seq<char>,
}

impl View for Code {
    type V = CodeView;

    open spec fn view(&self) -> CodeView {
        CodeView { multiline: self.multiline, text: self.text@ }
    }
}

/// A math span: `$text$` inline, or `$$text$$` on display.
#[derive(Debug, Clone, PartialEq, Eq)]
pub struct Math {
    pub display: bool,
    /// The text between the delimiters, verbatim.
    pub text: String,
}

pub struct MathView {
    pub display: bool,
    pub text: Seq<char>,
}

impl View for Math {
    type V = MathView;

    open spec fn view(&self) -> MathView {
        MathView { display: self.display, text: self.text@ }
    }
}

/// A link `[[target]]` or `[[target|rename]]`; a leading `!` marks an embed.
#[derive(Debug, Clone, PartialEq, Eq)]
pub struct Link {
    pub embed: bool,
    pub target: String,
    pub rename: Option<String>,
}

pub struct LinkView {
    pub embed: bool,
    pub target: Seq<char>,
    pub rename: Option<Seq<char>>,
}

impl View for Link {
    type V = LinkView;

    open spec fn view(&self) -> LinkView {
        LinkView {
            embed: self.embed,
            target: self.target@,
            rename: match self.rename {
                Some(r) => Some(r@),
                None => None,
            },
        }
    }
}

/// An inline unit: what headings and cloze blocks are made of.
#[derive(Debug, Clone, PartialEq, Eq)]
pub enum Element {
    Code(Code),
    Math(Math),
    Link(Link),
    Char(char),
}

pub enum ElementView {
    Code(CodeView),
    Math(MathView),
    Link(LinkView),
    Char(char),
}

impl View for Element {
    type V = ElementView;

    open spec fn view(&self) -> ElementView {
        match *self {
            Element::Code(c) => ElementView::Code(c@),
            Element::Math(m) => ElementView::Math(m@),
            Element::Link(l) => ElementView::Link(l@),
            Element::Char(c) => ElementView::Char(c),
        }
    }
}

/// The views of a list of elements, in order.
pub open spec fn elements_view(v: Seq<Element>) -> Seq<ElementView> {
    Seq::new(v.len(), |i: int| v[i]@)
}

/// One piece of a cloze block after its first cloze: a further cloze, given
/// by its elements, or an element outside any cloze.
#[derive(Debug, Clone, PartialEq, Eq)]
pub enum ClozePart {
    Cloze(Vec<Element>),
    Element(Element),
}

pub enum ClozePartView {
    Cloze(Seq<ElementView>),
    Element(ElementView),
}

impl View for ClozePart {
    type V = ClozePartView;

    open spec fn view(&self) -> ClozePartView {
        match *self {
            ClozePart::Cloze(c) => ClozePartView::Cloze(elements_view(c@)),
            ClozePart::Element(e) => ClozePartView::Element(e@),
        }
    }
}

/// The views of a list of cloze parts, in order.
pub open spec fn parts_view(v: Seq<ClozePart>) -> Seq<ClozePartView> {
    Seq::new(v.len(), |i: int| v[i]@)
}

/// The identifier comment `<!--NoteID:digits-->` on the line after a cloze
/// block, with the line break before it and the one after it, if any.
#[derive(Debug, Clone, PartialEq, Eq)]
pub struct NoteIdComment {
    pub newline: char,
    pub digits: String,
    pub trailing: Option<char>,
}

pub struct NoteIdCommentView {
    pub newline: char,
    pub digits: Seq<char>,
    pub trailing: Option<char>,
}

impl View for NoteIdComment {
    type V = NoteIdCommentView;

    open spec fn view(&self) -> NoteIdCommentView {
        NoteIdCommentView { newline: self.newline, digits: self.digits@, trailing: self.trailing }
    }
}

/// A cloze block: text that holds at least one cloze, with the identifier
/// comment that follows it, if there is one.
#[derive(Debug, Clone, PartialEq, Eq)]
pub struct ClozeLines {
    /// The elements before the first cloze.
    pub prefix: Vec<Element>,
    /// The elements of the first cloze.
    pub first: Vec<Element>,
    /// What follows the first cloze.
    pub rest: Vec<ClozePart>,
    pub note_id: Option<NoteIdComment>,
    /// How many characters of the source follow the block.
    pub remaining: usize,
}

pub struct ClozeLinesView {
    pub prefix: Seq<ElementView>,
    pub first: Seq<ElementView>,
    pub rest: Seq<ClozePartView>,
    pub note_id: Option<NoteIdCommentView>,
    pub remaining: nat,
}

impl View for ClozeLines {
    type V = ClozeLinesView;

    open spec fn view(&self) -> ClozeLinesView {
        ClozeLinesView {
            prefix: elements_view(self.prefix@),
            first: elements_view(self.first@),
            rest: parts_view(self.rest@),
            note_id: match self.note_id {
                Some(n) => Some(n@),
                None => None,
            },
            remaining: self.remaining as nat,
        }
    }
}

/// A heading line: its level is the number of `#` that open it.
#[derive(Debug, Clone, PartialEq, Eq)]
pub struct Heading {
    pub level: usize,
    pub elements: Vec<Element>,
    /// The line break that ends the heading.
    pub newline: char,
}

pub struct HeadingView {
    pub level: nat,
    pub elements: Seq<ElementView>,
    pub newline: char,
}

impl View for Heading {
    type V = HeadingView;

    open spec fn view(&self) -> HeadingView {
        HeadingView {
            level: self.level as nat,
            elements: elements_view(self.elements@),
            newline: self.newline,
        }
    }
}

/// A top-level element of a note.
#[derive(Debug, Clone, PartialEq, Eq)]
pub enum FileElement {
    ClozeLines(ClozeLines),
    Heading(Heading),
    /// A tag, with the `#` that opens it.
    Tag(String),
    Code(Code),
    Math(Math),
    Link(Link),
    Char(char),
}

pub enum FileElementView {
    ClozeLines(ClozeLinesView),
    Heading(HeadingView),
    Tag(Seq<char>),
    Code(CodeView),
    Math(MathView),
    Link(LinkView),
    Char(char),
}

impl View for FileElement {
    type V = FileElementView;

    open spec fn view(&self) -> FileElementView {
        match *self {
            FileElement::ClozeLines(c) => FileElementView::ClozeLines(c@),
            FileElement::Heading(h) => FileElementView::Heading(h@),
            FileElement::Tag(t) => FileElementView::Tag(t@),
            FileElement::Code(c) => FileElementView::Code(c@),
            FileElement::Math(m) => FileElementView::Math(m@),
            FileElement::Link(l) => FileElementView::Link(l@),
            FileElement::Char(c) => FileElementView::Char(c),
        }
    }
}

/// The views of a list of top-level elements, in order.
pub open spec fn file_view(v: Seq<FileElement>) -> Seq<FileElementView> {
    Seq::new(v.len(), |i: int| v[i]@)
}

/// A parsed note: its top-level elements in the order of the source text.
#[derive(Debug, Clone, PartialEq, Eq)]
pub struct Document {
    pub elements: Vec<FileElement>,
}

impl View for Document {
    type V = Seq<FileElementView>;

    open spec fn view(&self) -> Seq<FileElementView> {
        file_view(self.elements@)
    }
}

impl NoteIdCommentView {
    /// An identifier is written with ten to thirteen decimal digits.
    pub open spec fn wf(self) -> bool {
        10 <= self.digits.len() <= 13 && all_digits(self.digits)
    }
}

impl ClozeLinesView {
    /// The first cloze is not empty, the identifier is well formed, and the
    /// clozes can be counted in a machine word.
    pub open spec fn wf(self) -> bool {
        &&& self.first.len() >= 1
        &&& self.rest.len() < usize::MAX
        &&& match self.note_id {
            Some(n) => n.wf(),
            None => true,
        }
    }
}

impl HeadingView {
    /// A heading has a level of one or more.
    pub open spec fn wf(self) -> bool {
        self.level >= 1
    }
}

impl FileElementView {
    /// The cloze block or the heading that this is, if it is one, is well
    /// formed.
    pub open spec fn wf(self) -> bool {
        match self {
            FileElementView::ClozeLines(c) => c.wf(),
            FileElementView::Heading(h) => h.wf(),
            _ => true,
        }
    }
}

/// Every element of the document is well formed.
pub open spec fn document_wf(doc: Seq<FileElementView>) -> bool {
    forall|i: int| 0 <= i < doc.len() ==> (#[trigger] doc[i]).wf()
}

impl Document {
    /// Every element of the document is well formed.
    pub open spec fn wf(&self) -> bool {
        document_wf(self@)
    }
}

/// Appending one element appends its view.
pub proof fn lemma_elements_view_push(v: Seq<Element>, e: Element)
    ensures
        elements_view(v.push(e)) == elements_view(v).push(e@),
{
    assert(elements_view(v.push(e)) =~= elements_view(v).push(e@));
}

/// Appending one cloze part appends its view.
pub proof fn lemma_parts_view_push(v: Seq<ClozePart>, p: ClozePart)
    ensures
        parts_view(v.push(p)) == parts_view(v).push(p@),
{
    assert(parts_view(v.push(p)) =~= parts_view(v).push(p@));
}

/// Appending one top-level element appends its view.
pub proof fn lemma_file_view_push(v: Seq<FileElement>, e: FileElement)
    ensures
        file_view(v.push(e)) == file_view(v).push(e@),
{
    assert(file_view(v.push(e)) =~= file_view(v).push(e@));
}

} // verus!

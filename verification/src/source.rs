//! Every parse holds its whole text: the elements of a document, written
//! out again one after the other, give the text that was parsed.

use vstd::prelude::*;
use crate::document::{
    ClozeLinesView, ClozePartView, ElementView, FileElementView, HeadingView, LinkView, MathView,
    NoteIdCommentView,
};
use crate::grammar::{
    cloze_at, cloze_body, cloze_lines_at, code_at, comment_open, document, document_from,
    element_at, file_element_at, heading_at, lemma_scan_bounds, lemma_scan_run, lemma_scan_stops,
    line_elements, link_at, math_at, newline_at, note_id_comment_at, pair_at, prefix_elements,
    rest_parts, scan, stops, tag_at, Stop,
};
use crate::render::code_text;
use crate::text::text_at;

verus! {

/// A math span as it stands in the source.
pub open spec fn math_source(m: MathView) -> Seq<char> {
    if m.display {
        seq!['$', '$'] + m.text + seq!['$', '$']
    } else {
        seq!['$'] + m.text + seq!['$']
    }
}

/// A link as it stands in the source.
pub open spec fn link_source(l: LinkView) -> Seq<char> {
    (if l.embed {
        seq!['!']
    } else {
        Seq::empty()
    }) + seq!['[', '['] + l.target + (match l.rename {
        Some(r) => seq!['|'] + r,
        None => Seq::empty(),
    }) + seq![']', ']']
}

/// An element as it stands in the source.
pub open spec fn element_source(e: ElementView) -> Seq<char> {
    match e {
        ElementView::Code(c) => code_text(c),
        ElementView::Math(m) => math_source(m),
        ElementView::Link(l) => link_source(l),
        ElementView::Char(c) => seq![c],
    }
}

/// Elements as they stand in the source, one after the other.
pub open spec fn elements_source(es: Seq<ElementView>) -> Seq<char>
    decreases es.len(),
{
    if es.len() == 0 {
        Seq::empty()
    } else {
        element_source(es[0]) + elements_source(es.subrange(1, es.len() as int))
    }
}

/// A cloze as it stands in the source.
pub open spec fn cloze_source(es: Seq<ElementView>) -> Seq<char> {
    seq!['=', '='] + elements_source(es) + seq!['=', '=']
}

/// The parts of a cloze block as they stand in the source.
pub open spec fn parts_source(ps: Seq<ClozePartView>) -> Seq<char>
    decreases ps.len(),
{
    if ps.len() == 0 {
        Seq::empty()
    } else {
        (match ps[0] {
            ClozePartView::Cloze(es) => cloze_source(es),
            ClozePartView::Element(e) => element_source(e),
        }) + parts_source(ps.subrange(1, ps.len() as int))
    }
}

/// An identifier comment as it stands in the source.
pub open spec fn comment_source(n: NoteIdCommentView) -> Seq<char> {
    seq![n.newline] + comment_open() + n.digits + seq!['-', '-', '>'] + (match n.trailing {
        Some(c) => seq![c],
        None => Seq::empty(),
    })
}

/// A cloze block as it stands in the source.
pub open spec fn block_source(b: ClozeLinesView) -> Seq<char> {
    elements_source(b.prefix) + cloze_source(b.first) + parts_source(b.rest) + (match b.note_id {
        Some(n) => comment_source(n),
        None => Seq::empty(),
    })
}

/// A heading as it stands in the source.
pub open spec fn heading_source(h: HeadingView) -> Seq<char> {
    Seq::new(h.level, |i: int| '#') + seq![' '] + elements_source(h.elements) + seq![h.newline]
}

/// A top-level element as it stands in the source.
pub open spec fn file_element_source(e: FileElementView) -> Seq<char> {
    match e {
        FileElementView::ClozeLines(b) => block_source(b),
        FileElementView::Heading(h) => heading_source(h),
        FileElementView::Tag(t) => t,
        FileElementView::Code(c) => code_text(c),
        FileElementView::Math(m) => math_source(m),
        FileElementView::Link(l) => link_source(l),
        FileElementView::Char(c) => seq![c],
    }
}

/// A document as it stands in the source.
pub open spec fn document_source(doc: Seq<FileElementView>) -> Seq<char>
    decreases doc.len(),
{
    if doc.len() == 0 {
        Seq::empty()
    } else {
        file_element_source(doc[0]) + document_source(doc.subrange(1, doc.len() as int))
    }
}

/// A code span holds the text that it was parsed from.
pub proof fn lemma_code_source(s: Seq<char>, i: int)
    requires
        code_at(s, i) is Some,
    ensures
        i < code_at(s, i)->Some_0.1 <= s.len(),
        code_text(code_at(s, i)->Some_0.0) == s.subrange(i, code_at(s, i)->Some_0.1),
{
    let (c, j) = code_at(s, i)->Some_0;
    if c.multiline {
        let k = scan(s, i + 3, Stop::Fence);
        lemma_scan_run(s, i + 3, Stop::Fence);
        assert(stops(Stop::Fence, s, k)) by {
            lemma_scan_stops(s, i + 3, Stop::Fence);
        }
        assert(code_text(c) =~= s.subrange(i, j));
    } else {
        let k = scan(s, i + 1, Stop::Backtick);
        assert(stops(Stop::Backtick, s, k)) by {
            lemma_scan_stops(s, i + 1, Stop::Backtick);
        }
        assert(code_text(c) =~= s.subrange(i, j));
    }
}

/// A math span holds the text that it was parsed from.
pub proof fn lemma_math_source(s: Seq<char>, i: int)
    requires
        math_at(s, i) is Some,
    ensures
        i < math_at(s, i)->Some_0.1 <= s.len(),
        math_source(math_at(s, i)->Some_0.0) == s.subrange(i, math_at(s, i)->Some_0.1),
{
    let (m, j) = math_at(s, i)->Some_0;
    if m.display {
        lemma_scan_stops(s, i + 2, Stop::Dollars);
        assert(math_source(m) =~= s.subrange(i, j));
    } else {
        lemma_scan_stops(s, i + 1, Stop::Dollar);
        assert(math_source(m) =~= s.subrange(i, j));
    }
}

/// A link holds the text that it was parsed from.
pub proof fn lemma_link_source(s: Seq<char>, i: int)
    requires
        link_at(s, i) is Some,
    ensures
        i < link_at(s, i)->Some_0.1 <= s.len(),
        link_source(link_at(s, i)->Some_0.0) == s.subrange(i, link_at(s, i)->Some_0.1),
{
    let (l, j) = link_at(s, i)->Some_0;
    assert(link_source(l) =~= s.subrange(i, j));
}

/// An element holds the text that it was parsed from.
pub proof fn lemma_element_source(s: Seq<char>, i: int)
    requires
        0 <= i < s.len(),
    ensures
        element_at(s, i) is Some,
        i < element_at(s, i)->Some_0.1 <= s.len(),
        element_source(element_at(s, i)->Some_0.0) == s.subrange(i, element_at(s, i)->Some_0.1),
{
    if code_at(s, i) is Some {
        lemma_code_source(s, i);
    } else if math_at(s, i) is Some {
        lemma_math_source(s, i);
    } else if link_at(s, i) is Some {
        lemma_link_source(s, i);
    } else {
        assert(seq![s[i]] =~= s.subrange(i, i + 1));
    }
}

/// The source of an element followed by others.
pub proof fn lemma_elements_source_cons(e: ElementView, rest: Seq<ElementView>)
    ensures
        elements_source(seq![e] + rest) == element_source(e) + elements_source(rest),
{
    let all = seq![e] + rest;
    assert(all.subrange(1, all.len() as int) =~= rest);
}

/// The source of a part followed by others.
pub proof fn lemma_parts_source_cons(p: ClozePartView, rest: Seq<ClozePartView>)
    ensures
        parts_source(seq![p] + rest) == (match p {
            ClozePartView::Cloze(es) => cloze_source(es),
            ClozePartView::Element(e) => element_source(e),
        }) + parts_source(rest),
{
    let all = seq![p] + rest;
    assert(all.subrange(1, all.len() as int) =~= rest);
}

/// The inside of a cloze holds the text that it was parsed from.
pub proof fn lemma_cloze_body_source(s: Seq<char>, i: int)
    requires
        0 <= i <= s.len(),
    ensures
        i <= cloze_body(s, i).1 <= s.len(),
        elements_source(cloze_body(s, i).0) == s.subrange(i, cloze_body(s, i).1),
    decreases s.len() - i,
{
    if i < s.len() && !pair_at(s, i, '=', '=') {
        lemma_element_source(s, i);
        let (e, j) = element_at(s, i)->Some_0;
        lemma_cloze_body_source(s, j);
        let (rest, k) = cloze_body(s, j);
        lemma_elements_source_cons(e, rest);
        assert(s.subrange(i, j) + s.subrange(j, k) =~= s.subrange(i, k));
    } else {
        assert(s.subrange(i, i) =~= Seq::<char>::empty());
    }
}

/// A cloze holds the text that it was parsed from.
pub proof fn lemma_cloze_source(s: Seq<char>, i: int)
    requires
        cloze_at(s, i) is Some,
    ensures
        i < cloze_at(s, i)->Some_0.1 <= s.len(),
        cloze_source(cloze_at(s, i)->Some_0.0) == s.subrange(i, cloze_at(s, i)->Some_0.1),
{
    lemma_cloze_body_source(s, i + 2);
    let (es, j) = cloze_at(s, i)->Some_0;
    assert(cloze_source(es) =~= s.subrange(i, j));
}

/// The elements of a line hold the text that they were parsed from.
pub proof fn lemma_line_elements_source(s: Seq<char>, i: int)
    requires
        0 <= i <= s.len(),
    ensures
        i <= line_elements(s, i).1 <= s.len(),
        elements_source(line_elements(s, i).0) == s.subrange(i, line_elements(s, i).1),
    decreases s.len() - i,
{
    if i < s.len() && !newline_at(s, i) {
        lemma_element_source(s, i);
        let (e, j) = element_at(s, i)->Some_0;
        lemma_line_elements_source(s, j);
        let (rest, k) = line_elements(s, j);
        lemma_elements_source_cons(e, rest);
        assert(s.subrange(i, j) + s.subrange(j, k) =~= s.subrange(i, k));
    } else {
        assert(s.subrange(i, i) =~= Seq::<char>::empty());
    }
}

/// What precedes the first cloze holds the text that it was parsed from.
pub proof fn lemma_prefix_elements_source(s: Seq<char>, i: int)
    requires
        0 <= i <= s.len(),
    ensures
        i <= prefix_elements(s, i).1 <= s.len(),
        elements_source(prefix_elements(s, i).0) == s.subrange(i, prefix_elements(s, i).1),
    decreases s.len() - i,
{
    if i < s.len() && !newline_at(s, i) && cloze_at(s, i) is None {
        lemma_element_source(s, i);
        let (e, j) = element_at(s, i)->Some_0;
        lemma_prefix_elements_source(s, j);
        let (rest, k) = prefix_elements(s, j);
        lemma_elements_source_cons(e, rest);
        assert(s.subrange(i, j) + s.subrange(j, k) =~= s.subrange(i, k));
    } else {
        assert(s.subrange(i, i) =~= Seq::<char>::empty());
    }
}

/// What follows the first cloze holds the text that it was parsed from.
pub proof fn lemma_rest_parts_source(s: Seq<char>, i: int)
    requires
        0 <= i <= s.len(),
    ensures
        i <= rest_parts(s, i).1 <= s.len(),
        parts_source(rest_parts(s, i).0) == s.subrange(i, rest_parts(s, i).1),
    decreases s.len() - i,
{
    if cloze_at(s, i) is Some {
        lemma_cloze_source(s, i);
        let (c, j) = cloze_at(s, i)->Some_0;
        lemma_rest_parts_source(s, j);
        let (rest, k) = rest_parts(s, j);
        lemma_parts_source_cons(ClozePartView::Cloze(c), rest);
        assert(s.subrange(i, j) + s.subrange(j, k) =~= s.subrange(i, k));
    } else if i < s.len() && !newline_at(s, i) {
        lemma_element_source(s, i);
        let (e, j) = element_at(s, i)->Some_0;
        lemma_rest_parts_source(s, j);
        let (rest, k) = rest_parts(s, j);
        lemma_parts_source_cons(ClozePartView::Element(e), rest);
        assert(s.subrange(i, j) + s.subrange(j, k) =~= s.subrange(i, k));
    } else {
        assert(s.subrange(i, i) =~= Seq::<char>::empty());
    }
}

/// An identifier comment holds the text that it was parsed from.
pub proof fn lemma_comment_source(s: Seq<char>, i: int)
    requires
        note_id_comment_at(s, i) is Some,
    ensures
        i < note_id_comment_at(s, i)->Some_0.1 <= s.len(),
        comment_source(note_id_comment_at(s, i)->Some_0.0) == s.subrange(
            i,
            note_id_comment_at(s, i)->Some_0.1,
        ),
{
    let (n, j) = note_id_comment_at(s, i)->Some_0;
    let d0 = i + 1 + comment_open().len();
    let d1 = scan(s, d0, Stop::NonDigit);
    assert(text_at(s, i + 1, comment_open()));
    assert(s.subrange(i + 1, d0) == comment_open());
    assert(comment_source(n) =~= seq![s[i]] + s.subrange(i + 1, d0) + s.subrange(d0, d1)
        + s.subrange(d1, d1 + 3) + s.subrange(d1 + 3, j));
    assert(seq![s[i]] + s.subrange(i + 1, d0) + s.subrange(d0, d1) + s.subrange(d1, d1 + 3)
        + s.subrange(d1 + 3, j) =~= s.subrange(i, j));
}

/// A cloze block holds the text that it was parsed from.
pub proof fn lemma_block_source(s: Seq<char>, i: int)
    requires
        0 <= i <= s.len(),
        cloze_lines_at(s, i) is Some,
    ensures
        i < cloze_lines_at(s, i)->Some_0.1 <= s.len(),
        block_source(cloze_lines_at(s, i)->Some_0.0) == s.subrange(
            i,
            cloze_lines_at(s, i)->Some_0.1,
        ),
{
    let (block, end) = cloze_lines_at(s, i)->Some_0;
    lemma_prefix_elements_source(s, i);
    let (prefix, a) = prefix_elements(s, i);
    lemma_cloze_source(s, a);
    let (first, b) = cloze_at(s, a)->Some_0;
    lemma_rest_parts_source(s, b);
    let (rest, c) = rest_parts(s, b);
    if note_id_comment_at(s, c) is Some {
        lemma_comment_source(s, c);
        assert(s.subrange(i, a) + s.subrange(a, b) + s.subrange(b, c) + s.subrange(c, end)
            =~= s.subrange(i, end));
    } else {
        assert(s.subrange(i, a) + s.subrange(a, b) + s.subrange(b, c) + Seq::<char>::empty()
            =~= s.subrange(i, end));
    }
}

/// A heading holds the text that it was parsed from.
pub proof fn lemma_heading_source(s: Seq<char>, i: int)
    requires
        heading_at(s, i) is Some,
    ensures
        i < heading_at(s, i)->Some_0.1 <= s.len(),
        heading_source(heading_at(s, i)->Some_0.0) == s.subrange(i, heading_at(s, i)->Some_0.1),
{
    let (head, end) = heading_at(s, i)->Some_0;
    let h = scan(s, i, Stop::NonHash);
    lemma_scan_run(s, i, Stop::NonHash);
    lemma_line_elements_source(s, h + 1);
    let (elements, j) = line_elements(s, h + 1);
    assert(Seq::new(head.level, |k: int| '#') =~= s.subrange(i, h)) by {
        assert forall|k: int| 0 <= k < h - i implies s.subrange(i, h)[k] == '#' by {
            assert(!stops(Stop::NonHash, s, i + k));
        }
    }
    assert(s.subrange(i, h) + seq![' '] + s.subrange(h + 1, j) + seq![s[j]] =~= s.subrange(
        i,
        end,
    ));
}

/// A top-level element holds the text that it was parsed from.
pub proof fn lemma_file_element_source(s: Seq<char>, i: int)
    requires
        0 <= i < s.len(),
    ensures
        file_element_at(s, i) is Some,
        i < file_element_at(s, i)->Some_0.1 <= s.len(),
        file_element_source(file_element_at(s, i)->Some_0.0) == s.subrange(
            i,
            file_element_at(s, i)->Some_0.1,
        ),
{
    if cloze_lines_at(s, i) is Some {
        lemma_block_source(s, i);
    } else if heading_at(s, i) is Some {
        lemma_heading_source(s, i);
    } else if tag_at(s, i) is Some {
        lemma_scan_bounds(s, i + 1, Stop::TagEnd);
    } else if code_at(s, i) is Some {
        lemma_code_source(s, i);
    } else if math_at(s, i) is Some {
        lemma_math_source(s, i);
    } else if link_at(s, i) is Some {
        lemma_link_source(s, i);
    } else {
        assert(seq![s[i]] =~= s.subrange(i, i + 1));
    }
}

/// The elements from a position on hold the text from that position on.
pub proof fn lemma_document_from_source(s: Seq<char>, i: int)
    requires
        0 <= i <= s.len(),
    ensures
        document_source(document_from(s, i)) == s.subrange(i, s.len() as int),
    decreases s.len() - i,
{
    if i < s.len() {
        lemma_file_element_source(s, i);
        let (e, j) = file_element_at(s, i)->Some_0;
        lemma_document_from_source(s, j);
        let rest = document_from(s, j);
        let all = seq![e] + rest;
        assert(all.subrange(1, all.len() as int) =~= rest);
        assert(s.subrange(i, j) + s.subrange(j, s.len() as int) =~= s.subrange(
            i,
            s.len() as int,
        ));
    } else {
        assert(s.subrange(i, s.len() as int) =~= Seq::<char>::empty());
    }
}

/// Every text has a parse, and the parse holds the whole text: written out
/// again, element after element, it is the text that was parsed.
pub proof fn lemma_document_holds_source(s: Seq<char>)
    ensures
        document_source(document(s)) == s,
{
    lemma_document_from_source(s, 0);
    assert(s.subrange(0, s.len() as int) =~= s);
}

} // verus!

//! The parser: executable code that computes what the grammar defines.

use vstd::prelude::*;
use crate::document::{
    document_wf, elements_view, file_view, lemma_elements_view_push, lemma_file_view_push,
    lemma_parts_view_push, parts_view, ClozeLines, ClozePart, ClozePartView, Code, Document,
    Element, ElementView, FileElement, FileElementView, Heading, Link, Math, NoteIdComment,
};
use crate::grammar::{
    cloze_at, cloze_body, cloze_lines_at, code_at, document, document_from, element_at,
    file_element_at, heading_at, is_digit, is_newline, lemma_scan_run, line_elements, link_at,
    math_at, note_id_comment_at, pair_at, prefix_elements, rest_parts, scan, stops, tag_at,
    triple_at, Stop,
};
use crate::text::{chars_of, string_of, text_here};

verus! {

fn newline_char(c: char) -> (r: bool)
    ensures
        r == is_newline(c),
{
    c == '\r' || c == '\n'
}

fn digit_char(c: char) -> (r: bool)
    ensures
        r == is_digit(c),
{
    '0' <= c && c <= '9'
}

fn pair_here(s: &[char], i: usize, a: char, b: char) -> (r: bool)
    ensures
        r == pair_at(s@, i as int, a, b),
{
    i < s.len() && s.len() - i > 1 && s[i] == a && s[i + 1] == b
}

fn triple_here(s: &[char], i: usize, a: char, b: char, c: char) -> (r: bool)
    ensures
        r == triple_at(s@, i as int, a, b, c),
{
    i < s.len() && s.len() - i > 2 && s[i] == a && s[i + 1] == b && s[i + 2] == c
}

fn stops_here(kind: Stop, s: &[char], j: usize) -> (r: bool)
    requires
        j < s.len(),
    ensures
        r == stops(kind, s@, j as int),
{
    match kind {
        Stop::Backtick => s[j] == '`',
        Stop::Fence => triple_here(s, j, '`', '`', '`'),
        Stop::Dollar => s[j] == '$',
        Stop::Dollars => pair_here(s, j, '$', '$'),
        Stop::LinkTarget => pair_here(s, j, ']', ']') || newline_char(s[j]) || s[j] == '|',
        Stop::LinkRename => pair_here(s, j, ']', ']') || newline_char(s[j]),
        Stop::TagEnd => s[j] == '#' || s[j] == ' ' || newline_char(s[j]),
        Stop::NonDigit => !digit_char(s[j]),
        Stop::NonHash => s[j] != '#',
    }
}

fn scan_run(s: &[char], i: usize, kind: Stop) -> (j: usize)
    requires
        i <= s.len(),
    ensures
        j == scan(s@, i as int, kind),
        i <= j <= s.len(),
        j < s.len() ==> stops(kind, s@, j as int),
{
    let mut j: usize = i;
    while j < s.len() && !stops_here(kind, s, j)
        invariant
            i <= j <= s.len(),
            scan(s@, i as int, kind) == scan(s@, j as int, kind),
        decreases s.len() - j,
    {
        j += 1;
    }
    j
}

/// The code span at `i`, if one stands there, and where it ends.
pub fn parse_code(s: &[char], i: usize) -> (r: Option<(Code, usize)>)
    requires
        i < s.len(),
    ensures
        match r {
            Some((c, j)) => code_at(s@, i as int) == Some((c@, j as int)) && i < j <= s.len(),
            None => code_at(s@, i as int) is None,
        },
{
    if s[i] != '`' {
        return None;
    }
    let j = scan_run(s, i + 1, Stop::Backtick);
    if i + 1 < j && j < s.len() {
        return Some((Code { multiline: false, text: string_of(s, i + 1, j) }, j + 1));
    }
    if triple_here(s, i, '`', '`', '`') {
        let k = scan_run(s, i + 3, Stop::Fence);
        if i + 3 < k && k < s.len() {
            return Some((Code { multiline: true, text: string_of(s, i + 3, k) }, k + 3));
        }
    }
    None
}

/// The math span at `i`, if one stands there, and where it ends.
pub fn parse_math(s: &[char], i: usize) -> (r: Option<(Math, usize)>)
    requires
        i < s.len(),
    ensures
        match r {
            Some((m, j)) => math_at(s@, i as int) == Some((m@, j as int)) && i < j <= s.len(),
            None => math_at(s@, i as int) is None,
        },
{
    if s[i] != '$' {
        return None;
    }
    let j = scan_run(s, i + 1, Stop::Dollar);
    if i + 1 < j && j < s.len() {
        return Some((Math { display: false, text: string_of(s, i + 1, j) }, j + 1));
    }
    if pair_here(s, i, '$', '$') {
        let k = scan_run(s, i + 2, Stop::Dollars);
        if i + 2 < k && k < s.len() {
            return Some((Math { display: true, text: string_of(s, i + 2, k) }, k + 2));
        }
    }
    None
}

/// The link at `i`, if one stands there, and where it ends.
pub fn parse_link(s: &[char], i: usize) -> (r: Option<(Link, usize)>)
    requires
        i < s.len(),
    ensures
        match r {
            Some((l, j)) => link_at(s@, i as int) == Some((l@, j as int)) && i < j <= s.len(),
            None => link_at(s@, i as int) is None,
        },
{
    let embed = s[i] == '!';
    let open: usize = if embed { i + 1 } else { i };
    if !pair_here(s, open, '[', '[') {
        return None;
    }
    let t0: usize = open + 2;
    let t1 = scan_run(s, t0, Stop::LinkTarget);
    if t1 <= t0 {
        return None;
    }
    let mut close: usize = t1;
    let mut rename: Option<String> = None;
    if t1 < s.len() && s[t1] == '|' {
        let r0: usize = t1 + 1;
        let r1 = scan_run(s, r0, Stop::LinkRename);
        if r0 < r1 {
            rename = Some(string_of(s, r0, r1));
            close = r1;
        }
    }
    if !pair_here(s, close, ']', ']') {
        return None;
    }
    Some((Link { embed, target: string_of(s, t0, t1), rename }, close + 2))
}

/// The element at `i`, and where it ends.
pub fn parse_element(s: &[char], i: usize) -> (r: (Element, usize))
    requires
        i < s.len(),
    ensures
        element_at(s@, i as int) == Some((r.0@, r.1 as int)),
        i < r.1 <= s.len(),
{
    if let Some((c, j)) = parse_code(s, i) {
        return (Element::Code(c), j);
    }
    if let Some((m, j)) = parse_math(s, i) {
        return (Element::Math(m), j);
    }
    if let Some((l, j)) = parse_link(s, i) {
        return (Element::Link(l), j);
    }
    (Element::Char(s[i]), i + 1)
}

fn parse_cloze_body(s: &[char], i: usize) -> (r: (Vec<Element>, usize))
    requires
        i <= s.len(),
    ensures
        cloze_body(s@, i as int) == (elements_view(r.0@), r.1 as int),
        i <= r.1 <= s.len(),
{
    let mut v: Vec<Element> = Vec::new();
    let mut j: usize = i;
    assert(elements_view(v@) + cloze_body(s@, j as int).0 =~= cloze_body(s@, j as int).0);
    while j < s.len() && !pair_here(s, j, '=', '=')
        invariant
            i <= j <= s.len(),
            cloze_body(s@, i as int) == (
                elements_view(v@) + cloze_body(s@, j as int).0,
                cloze_body(s@, j as int).1,
            ),
        decreases s.len() - j,
    {
        let (e, k) = parse_element(s, j);
        proof {
            lemma_elements_view_push(v@, e);
            let rest = cloze_body(s@, k as int).0;
            assert(elements_view(v@) + (seq![e@] + rest) =~= elements_view(v@).push(e@) + rest);
        }
        v.push(e);
        j = k;
    }
    assert(elements_view(v@) + Seq::<ElementView>::empty() =~= elements_view(
        v@,
    ));
    (v, j)
}

/// The cloze at `i`, if one stands there: its elements, and where it ends.
pub fn parse_cloze(s: &[char], i: usize) -> (r: Option<(Vec<Element>, usize)>)
    requires
        i <= s.len(),
    ensures
        match r {
            Some((c, j)) => cloze_at(s@, i as int) == Some((elements_view(c@), j as int)) && i
                < j <= s.len(),
            None => cloze_at(s@, i as int) is None,
        },
{
    if !pair_here(s, i, '=', '=') {
        return None;
    }
    let (elements, j) = parse_cloze_body(s, i + 2);
    if elements.len() >= 1 && pair_here(s, j, '=', '=') {
        Some((elements, j + 2))
    } else {
        None
    }
}

fn parse_line_elements(s: &[char], i: usize) -> (r: (Vec<Element>, usize))
    requires
        i <= s.len(),
    ensures
        line_elements(s@, i as int) == (elements_view(r.0@), r.1 as int),
        i <= r.1 <= s.len(),
{
    let mut v: Vec<Element> = Vec::new();
    let mut j: usize = i;
    assert(elements_view(v@) + line_elements(s@, j as int).0 =~= line_elements(s@, j as int).0);
    while j < s.len() && !newline_char(s[j])
        invariant
            i <= j <= s.len(),
            line_elements(s@, i as int) == (
                elements_view(v@) + line_elements(s@, j as int).0,
                line_elements(s@, j as int).1,
            ),
        decreases s.len() - j,
    {
        let (e, k) = parse_element(s, j);
        proof {
            lemma_elements_view_push(v@, e);
            let rest = line_elements(s@, k as int).0;
            assert(elements_view(v@) + (seq![e@] + rest) =~= elements_view(v@).push(e@) + rest);
        }
        v.push(e);
        j = k;
    }
    assert(elements_view(v@) + Seq::<ElementView>::empty() =~= elements_view(
        v@,
    ));
    (v, j)
}

fn parse_prefix_elements(s: &[char], i: usize) -> (r: (Vec<Element>, usize))
    requires
        i <= s.len(),
    ensures
        prefix_elements(s@, i as int) == (elements_view(r.0@), r.1 as int),
        i <= r.1 <= s.len(),
{
    let mut v: Vec<Element> = Vec::new();
    let mut j: usize = i;
    assert(elements_view(v@) + prefix_elements(s@, j as int).0 =~= prefix_elements(
        s@,
        j as int,
    ).0);
    while j < s.len() && !newline_char(s[j]) && parse_cloze(s, j).is_none()
        invariant
            i <= j <= s.len(),
            prefix_elements(s@, i as int) == (
                elements_view(v@) + prefix_elements(s@, j as int).0,
                prefix_elements(s@, j as int).1,
            ),
        decreases s.len() - j,
    {
        let (e, k) = parse_element(s, j);
        proof {
            lemma_elements_view_push(v@, e);
            let rest = prefix_elements(s@, k as int).0;
            assert(elements_view(v@) + (seq![e@] + rest) =~= elements_view(v@).push(e@) + rest);
        }
        v.push(e);
        j = k;
    }
    assert(elements_view(v@) + Seq::<ElementView>::empty() =~= elements_view(
        v@,
    ));
    (v, j)
}

fn parse_rest_parts(s: &[char], i: usize) -> (r: (Vec<ClozePart>, usize))
    requires
        i <= s.len(),
    ensures
        rest_parts(s@, i as int) == (parts_view(r.0@), r.1 as int),
        i <= r.1 <= s.len(),
        r.0@.len() <= r.1 - i,
{
    let mut v: Vec<ClozePart> = Vec::new();
    let mut j: usize = i;
    let mut done = false;
    assert(parts_view(v@) + rest_parts(s@, j as int).0 =~= rest_parts(s@, j as int).0);
    while !done
        invariant
            i <= j <= s.len(),
            v@.len() <= j - i,
            rest_parts(s@, i as int) == (
                parts_view(v@) + rest_parts(s@, j as int).0,
                rest_parts(s@, j as int).1,
            ),
            done ==> rest_parts(s@, j as int) == (
                Seq::<ClozePartView>::empty(),
                j as int,
            ),
        decreases s.len() - j + (if done { 0int } else { 1int }),
    {
        if let Some((c, k)) = parse_cloze(s, j) {
            let part = ClozePart::Cloze(c);
            proof {
                lemma_parts_view_push(v@, part);
                let rest = rest_parts(s@, k as int).0;
                assert(parts_view(v@) + (seq![part@] + rest) =~= parts_view(v@).push(part@)
                    + rest);
            }
            v.push(part);
            j = k;
        } else if j < s.len() && !newline_char(s[j]) {
            let (e, k) = parse_element(s, j);
            let part = ClozePart::Element(e);
            proof {
                lemma_parts_view_push(v@, part);
                let rest = rest_parts(s@, k as int).0;
                assert(parts_view(v@) + (seq![part@] + rest) =~= parts_view(v@).push(part@)
                    + rest);
            }
            v.push(part);
            j = k;
        } else {
            done = true;
        }
    }
    assert(parts_view(v@) + Seq::<ClozePartView>::empty() =~= parts_view(v@));
    (v, j)
}

/// The identifier comment at `i`, if one stands there, and where it ends.
pub fn parse_note_id_comment(s: &[char], i: usize) -> (r: Option<(NoteIdComment, usize)>)
    requires
        i <= s.len(),
    ensures
        match r {
            Some((n, j)) => note_id_comment_at(s@, i as int) == Some((n@, j as int)) && i < j
                <= s.len() && n@.wf(),
            None => note_id_comment_at(s@, i as int) is None,
        },
{
    if i >= s.len() || !newline_char(s[i]) {
        return None;
    }
    let open = chars_of("<!--NoteID:");
    if !text_here(s, i + 1, open.as_slice()) {
        return None;
    }
    let d0: usize = i + 1 + open.len();
    let d1 = scan_run(s, d0, Stop::NonDigit);
    if d1 - d0 < 10 || d1 - d0 > 13 || !triple_here(s, d1, '-', '-', '>') {
        return None;
    }
    let end: usize = d1 + 3;
    let digits = string_of(s, d0, d1);
    proof {
        lemma_scan_run(s@, d0 as int, Stop::NonDigit);
        assert forall|k: int| 0 <= k < digits@.len() implies '0' <= #[trigger] digits@[k]
            <= '9' by {
            assert(!stops(Stop::NonDigit, s@, d0 + k));
        }
    }
    if end < s.len() && newline_char(s[end]) {
        Some((NoteIdComment { newline: s[i], digits, trailing: Some(s[end]) }, end + 1))
    } else {
        Some((NoteIdComment { newline: s[i], digits, trailing: None }, end))
    }
}

/// The cloze block at `i`, if one stands there, and where it ends.
pub fn parse_cloze_lines(s: &[char], i: usize) -> (r: Option<(ClozeLines, usize)>)
    requires
        i <= s.len(),
    ensures
        match r {
            Some((c, j)) => cloze_lines_at(s@, i as int) == Some((c@, j as int)) && i < j
                <= s.len() && c@.wf(),
            None => cloze_lines_at(s@, i as int) is None,
        },
{
    let (prefix, a) = parse_prefix_elements(s, i);
    match parse_cloze(s, a) {
        None => None,
        Some((first, b)) => {
            let (rest, c) = parse_rest_parts(s, b);
            let (note_id, end) = match parse_note_id_comment(s, c) {
                Some((n, d)) => (Some(n), d),
                None => (None, c),
            };
            Some((ClozeLines { prefix, first, rest, note_id, remaining: s.len() - end }, end))
        },
    }
}

/// The heading at `i`, if one stands there, and where it ends.
pub fn parse_heading(s: &[char], i: usize) -> (r: Option<(Heading, usize)>)
    requires
        i < s.len(),
    ensures
        match r {
            Some((h, j)) => heading_at(s@, i as int) == Some((h@, j as int)) && i < j
                <= s.len() && h@.wf(),
            None => heading_at(s@, i as int) is None,
        },
{
    let h = scan_run(s, i, Stop::NonHash);
    if h <= i || h >= s.len() || s[h] != ' ' {
        return None;
    }
    let (elements, j) = parse_line_elements(s, h + 1);
    if j < s.len() && newline_char(s[j]) {
        Some((Heading { level: h - i, elements, newline: s[j] }, j + 1))
    } else {
        None
    }
}

/// The tag at `i`, if one stands there, and where it ends.
pub fn parse_tag(s: &[char], i: usize) -> (r: Option<(String, usize)>)
    requires
        i < s.len(),
    ensures
        match r {
            Some((t, j)) => tag_at(s@, i as int) == Some((t@, j as int)) && i < j <= s.len(),
            None => tag_at(s@, i as int) is None,
        },
{
    if s[i] != '#' {
        return None;
    }
    let j = scan_run(s, i + 1, Stop::TagEnd);
    if i + 1 < j {
        Some((string_of(s, i, j), j))
    } else {
        None
    }
}

/// The top-level element at `i`, and where it ends.
pub fn parse_file_element(s: &[char], i: usize) -> (r: (FileElement, usize))
    requires
        i < s.len(),
    ensures
        file_element_at(s@, i as int) == Some((r.0@, r.1 as int)),
        i < r.1 <= s.len(),
        r.0@.wf(),
{
    if let Some((c, j)) = parse_cloze_lines(s, i) {
        return (FileElement::ClozeLines(c), j);
    }
    if let Some((h, j)) = parse_heading(s, i) {
        return (FileElement::Heading(h), j);
    }
    if let Some((t, j)) = parse_tag(s, i) {
        return (FileElement::Tag(t), j);
    }
    if let Some((c, j)) = parse_code(s, i) {
        return (FileElement::Code(c), j);
    }
    if let Some((m, j)) = parse_math(s, i) {
        return (FileElement::Math(m), j);
    }
    if let Some((l, j)) = parse_link(s, i) {
        return (FileElement::Link(l), j);
    }
    (FileElement::Char(s[i]), i + 1)
}

/// Parses a note. Every text has a parse: the one that the grammar defines.
pub fn parse(text: &str) -> (doc: Document)
    ensures
        doc@ == document(text@),
        doc.wf(),
{
    let chars = chars_of(text);
    let s = chars.as_slice();
    let mut v: Vec<FileElement> = Vec::new();
    let mut i: usize = 0;
    assert(file_view(v@) + document_from(s@, 0) =~= document_from(s@, 0));
    while i < s.len()
        invariant
            i <= s.len(),
            document_from(s@, 0) == file_view(v@) + document_from(s@, i as int),
            document_wf(file_view(v@)),
        decreases s.len() - i,
    {
        let (e, k) = parse_file_element(s, i);
        proof {
            lemma_file_view_push(v@, e);
            let rest = document_from(s@, k as int);
            assert(file_view(v@) + (seq![e@] + rest) =~= file_view(v@).push(e@) + rest);
        }
        v.push(e);
        i = k;
    }
    assert(file_view(v@) + Seq::<FileElementView>::empty() =~= file_view(v@));
    Document { elements: v }
}

} // verus!

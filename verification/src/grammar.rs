//! The grammar of a note, as functions from the text and a position to what
//! stands there.
//!
//! The grammar is an ordered choice: at each position the first production
//! that matches is taken, and a production never gives back what it took.
//! A single character always matches, so every text has exactly one parse.

use vstd::prelude::*;
use crate::text::text_at;
use crate::document::{
    ClozeLinesView, ClozePartView, CodeView, ElementView, FileElementView, HeadingView, LinkView,
    MathView, NoteIdCommentView,
};

verus! {

/// A line break is a single carriage return or line feed. In a pair of the
/// two the carriage return ends the line, and the line feed is text of the
/// next one.
pub open spec fn is_newline(c: char) -> bool {
    c == '\r' || c == '\n'
}

pub open spec fn is_digit(c: char) -> bool {
    '0' <= c && c <= '9'
}

pub open spec fn newline_at(s: Seq<char>, i: int) -> bool {
    0 <= i < s.len() && is_newline(s[i])
}

/// The characters `a`, `b` stand at `i` and `i + 1`.
pub open spec fn pair_at(s: Seq<char>, i: int, a: char, b: char) -> bool {
    0 <= i && i + 1 < s.len() && s[i] == a && s[i + 1] == b
}

/// The characters `a`, `b`, `c` stand at `i`, `i + 1` and `i + 2`.
pub open spec fn triple_at(s: Seq<char>, i: int, a: char, b: char, c: char) -> bool {
    0 <= i && i + 2 < s.len() && s[i] == a && s[i + 1] == b && s[i + 2] == c
}

/// What opens an identifier comment.
pub open spec fn comment_open() -> Seq<char> {
    "<!--NoteID:"@
}

/// What ends a run of plain characters.
#[derive(Clone, Copy, Debug, PartialEq, Eq)]
pub enum Stop {
    /// A backtick.
    Backtick,
    /// Three backticks.
    Fence,
    /// A dollar sign.
    Dollar,
    /// Two dollar signs.
    Dollars,
    /// `]]`, a line break or `|`.
    LinkTarget,
    /// `]]` or a line break.
    LinkRename,
    /// `#`, a space or a line break.
    TagEnd,
    /// Anything but a decimal digit.
    NonDigit,
    /// Anything but `#`.
    NonHash,
}

/// The run of plain characters that `kind` delimits ends before position `j`.
pub open spec fn stops(kind: Stop, s: Seq<char>, j: int) -> bool {
    match kind {
        Stop::Backtick => s[j] == '`',
        Stop::Fence => triple_at(s, j, '`', '`', '`'),
        Stop::Dollar => s[j] == '$',
        Stop::Dollars => pair_at(s, j, '$', '$'),
        Stop::LinkTarget => pair_at(s, j, ']', ']') || is_newline(s[j]) || s[j] == '|',
        Stop::LinkRename => pair_at(s, j, ']', ']') || is_newline(s[j]),
        Stop::TagEnd => s[j] == '#' || s[j] == ' ' || is_newline(s[j]),
        Stop::NonDigit => !is_digit(s[j]),
        Stop::NonHash => s[j] != '#',
    }
}

/// The first position at or after `i` where the run that `kind` delimits
/// ends: the end of the text if it ends nowhere before.
pub open spec fn scan(s: Seq<char>, i: int, kind: Stop) -> int
    decreases s.len() - i,
{
    if i < 0 || i >= s.len() || stops(kind, s, i) {
        i
    } else {
        scan(s, i + 1, kind)
    }
}

/// A run of plain characters ends at or after where it starts, and within
/// the text.
pub proof fn lemma_scan_bounds(s: Seq<char>, i: int, kind: Stop)
    requires
        0 <= i <= s.len(),
    ensures
        i <= scan(s, i, kind) <= s.len(),
    decreases s.len() - i,
{
    if i < s.len() && !stops(kind, s, i) {
        lemma_scan_bounds(s, i + 1, kind);
    }
}

/// Nothing ends a run of plain characters before its end.
pub proof fn lemma_scan_run(s: Seq<char>, i: int, kind: Stop)
    requires
        0 <= i <= s.len(),
    ensures
        forall|k: int| i <= k < scan(s, i, kind) ==> !stops(kind, s, k),
    decreases s.len() - i,
{
    if i < s.len() && !stops(kind, s, i) {
        lemma_scan_run(s, i + 1, kind);
    }
}

/// Where a run of plain characters ends before the end of the text, what
/// ends it stands there.
pub proof fn lemma_scan_stops(s: Seq<char>, i: int, kind: Stop)
    requires
        0 <= i <= s.len(),
        scan(s, i, kind) < s.len(),
    ensures
        stops(kind, s, scan(s, i, kind)),
    decreases s.len() - i,
{
    if i < s.len() && !stops(kind, s, i) {
        lemma_scan_stops(s, i + 1, kind);
    }
}

/// A run of plain characters ends at the first position where what ends
/// it stands, or at the end of the text.
pub proof fn lemma_scan_is(s: Seq<char>, i: int, j: int, kind: Stop)
    requires
        0 <= i <= j <= s.len(),
        forall|k: int| i <= k < j ==> !stops(kind, s, k),
        j == s.len() || stops(kind, s, j),
    ensures
        scan(s, i, kind) == j,
    decreases j - i,
{
    if i < j {
        lemma_scan_is(s, i + 1, j, kind);
    }
}

/// A code span at `i`, and where it ends. An inline span is tried first.
pub open spec fn code_at(s: Seq<char>, i: int) -> Option<(CodeView, int)> {
    let j = scan(s, i + 1, Stop::Backtick);
    let k = scan(s, i + 3, Stop::Fence);
    if 0 <= i < s.len() && s[i] == '`' && i + 1 < j < s.len() {
        Some((CodeView { multiline: false, text: s.subrange(i + 1, j) }, j + 1))
    } else if triple_at(s, i, '`', '`', '`') && i + 3 < k < s.len() {
        Some((CodeView { multiline: true, text: s.subrange(i + 3, k) }, k + 3))
    } else {
        None
    }
}

/// A math span at `i`, and where it ends. An inline span is tried first.
pub open spec fn math_at(s: Seq<char>, i: int) -> Option<(MathView, int)> {
    let j = scan(s, i + 1, Stop::Dollar);
    let k = scan(s, i + 2, Stop::Dollars);
    if 0 <= i < s.len() && s[i] == '$' && i + 1 < j < s.len() {
        Some((MathView { display: false, text: s.subrange(i + 1, j) }, j + 1))
    } else if pair_at(s, i, '$', '$') && i + 2 < k < s.len() {
        Some((MathView { display: true, text: s.subrange(i + 2, k) }, k + 2))
    } else {
        None
    }
}

/// A link at `i`, and where it ends. A `|` after the target that no rename
/// follows is not part of a link.
pub open spec fn link_at(s: Seq<char>, i: int) -> Option<(LinkView, int)> {
    let embed = 0 <= i < s.len() && s[i] == '!';
    let open = if embed { i + 1 } else { i };
    let t0 = open + 2;
    let t1 = scan(s, t0, Stop::LinkTarget);
    let r0 = t1 + 1;
    let r1 = scan(s, r0, Stop::LinkRename);
    let renamed = t1 < s.len() && s[t1] == '|' && r0 < r1;
    let close = if renamed { r1 } else { t1 };
    if pair_at(s, open, '[', '[') && t0 < t1 && pair_at(s, close, ']', ']') {
        Some(
            (
                LinkView {
                    embed,
                    target: s.subrange(t0, t1),
                    rename: if renamed { Some(s.subrange(r0, r1)) } else { None },
                },
                close + 2,
            ),
        )
    } else {
        None
    }
}

/// The element at `i`, and where it ends: a code span, else a math span,
/// else a link, else the single character there. None only outside the text.
pub open spec fn element_at(s: Seq<char>, i: int) -> Option<(ElementView, int)> {
    if i < 0 || i >= s.len() {
        None
    } else if let Some((c, j)) = code_at(s, i) {
        Some((ElementView::Code(c), j))
    } else if let Some((m, j)) = math_at(s, i) {
        Some((ElementView::Math(m), j))
    } else if let Some((l, j)) = link_at(s, i) {
        Some((ElementView::Link(l), j))
    } else {
        Some((ElementView::Char(s[i]), i + 1))
    }
}

/// The elements from `i` on, up to the first position between elements where
/// `pair_at(.., '=', '=')` holds, and that position.
pub open spec fn cloze_body(s: Seq<char>, i: int) -> (Seq<ElementView>, int)
    decreases s.len() - i,
{
    if pair_at(s, i, '=', '=') {
        (Seq::empty(), i)
    } else if let Some((e, j)) = element_at(s, i) {
        if i < j <= s.len() {
            let (rest, k) = cloze_body(s, j);
            (seq![e] + rest, k)
        } else {
            (Seq::empty(), i)
        }
    } else {
        (Seq::empty(), i)
    }
}

/// A cloze at `i`: `==`, at least one element, `==`. Gives its elements and
/// where it ends.
pub open spec fn cloze_at(s: Seq<char>, i: int) -> Option<(Seq<ElementView>, int)> {
    let (elements, j) = cloze_body(s, i + 2);
    if pair_at(s, i, '=', '=') && elements.len() >= 1 && pair_at(s, j, '=', '=') && i + 2 <= j {
        Some((elements, j + 2))
    } else {
        None
    }
}

/// The elements from `i` on, up to the first line break between elements,
/// and that position.
pub open spec fn line_elements(s: Seq<char>, i: int) -> (Seq<ElementView>, int)
    decreases s.len() - i,
{
    if newline_at(s, i) {
        (Seq::empty(), i)
    } else if let Some((e, j)) = element_at(s, i) {
        if i < j <= s.len() {
            let (rest, k) = line_elements(s, j);
            (seq![e] + rest, k)
        } else {
            (Seq::empty(), i)
        }
    } else {
        (Seq::empty(), i)
    }
}

/// The elements from `i` on, up to the first position between elements where
/// a line break or a cloze stands, and that position.
pub open spec fn prefix_elements(s: Seq<char>, i: int) -> (Seq<ElementView>, int)
    decreases s.len() - i,
{
    if newline_at(s, i) || cloze_at(s, i) is Some {
        (Seq::empty(), i)
    } else if let Some((e, j)) = element_at(s, i) {
        if i < j <= s.len() {
            let (rest, k) = prefix_elements(s, j);
            (seq![e] + rest, k)
        } else {
            (Seq::empty(), i)
        }
    } else {
        (Seq::empty(), i)
    }
}

/// The clozes and elements from `i` on, a cloze wherever one stands, up to
/// the first line break outside a cloze, and that position.
pub open spec fn rest_parts(s: Seq<char>, i: int) -> (Seq<ClozePartView>, int)
    decreases s.len() - i,
{
    if let Some((c, j)) = cloze_at(s, i) {
        let (rest, k) = rest_parts(s, j);
        (seq![ClozePartView::Cloze(c)] + rest, k)
    } else if newline_at(s, i) {
        (Seq::empty(), i)
    } else if let Some((e, j)) = element_at(s, i) {
        if i < j <= s.len() {
            let (rest, k) = rest_parts(s, j);
            (seq![ClozePartView::Element(e)] + rest, k)
        } else {
            (Seq::empty(), i)
        }
    } else {
        (Seq::empty(), i)
    }
}

/// An identifier comment at `i`: a line break, `<!--NoteID:`, ten to
/// thirteen digits, `-->`, and a line break if one follows.
pub open spec fn note_id_comment_at(s: Seq<char>, i: int) -> Option<(NoteIdCommentView, int)> {
    let d0 = i + 1 + comment_open().len();
    let d1 = scan(s, d0, Stop::NonDigit);
    let end = d1 + 3;
    if newline_at(s, i) && text_at(s, i + 1, comment_open()) && 10 <= d1 - d0 <= 13 && triple_at(
        s,
        d1,
        '-',
        '-',
        '>',
    ) {
        Some(
            (
                NoteIdCommentView {
                    newline: s[i],
                    digits: s.subrange(d0, d1),
                    trailing: if newline_at(s, end) { Some(s[end]) } else { None },
                },
                if newline_at(s, end) { end + 1 } else { end },
            ),
        )
    } else {
        None
    }
}

/// A cloze block at `i`: elements up to the first cloze of the line, that
/// cloze, what follows it on the line, and the identifier comment on the
/// next line if there is one.
pub open spec fn cloze_lines_at(s: Seq<char>, i: int) -> Option<(ClozeLinesView, int)> {
    let (prefix, a) = prefix_elements(s, i);
    if let Some((first, b)) = cloze_at(s, a) {
        let (rest, c) = rest_parts(s, b);
        let comment = note_id_comment_at(s, c);
        let end = if let Some((n, d)) = comment { d } else { c };
        Some(
            (
                ClozeLinesView {
                    prefix,
                    first,
                    rest,
                    note_id: if let Some((n, d)) = comment { Some(n) } else { None },
                    remaining: (s.len() - end) as nat,
                },
                end,
            ),
        )
    } else {
        None
    }
}

/// A heading at `i`: one `#` or more, a space, elements up to a line break,
/// and the line break.
pub open spec fn heading_at(s: Seq<char>, i: int) -> Option<(HeadingView, int)> {
    let h = scan(s, i, Stop::NonHash);
    let (elements, j) = line_elements(s, h + 1);
    if 0 <= i < h < s.len() && s[h] == ' ' && newline_at(s, j) {
        Some((HeadingView { level: (h - i) as nat, elements, newline: s[j] }, j + 1))
    } else {
        None
    }
}

/// A tag at `i`: `#` and at least one character that is none of `#`, space
/// and line break. Gives the tag with its `#`, and where it ends.
pub open spec fn tag_at(s: Seq<char>, i: int) -> Option<(Seq<char>, int)> {
    let j = scan(s, i + 1, Stop::TagEnd);
    if 0 <= i < s.len() && s[i] == '#' && i + 1 < j {
        Some((s.subrange(i, j), j))
    } else {
        None
    }
}

/// The top-level element at `i`, and where it ends: the first that matches
/// of cloze block, heading, tag, code span, math span, link, and single
/// character.
pub open spec fn file_element_at(s: Seq<char>, i: int) -> Option<(FileElementView, int)> {
    if i < 0 || i >= s.len() {
        None
    } else if let Some((c, j)) = cloze_lines_at(s, i) {
        Some((FileElementView::ClozeLines(c), j))
    } else if let Some((h, j)) = heading_at(s, i) {
        Some((FileElementView::Heading(h), j))
    } else if let Some((t, j)) = tag_at(s, i) {
        Some((FileElementView::Tag(t), j))
    } else if let Some((c, j)) = code_at(s, i) {
        Some((FileElementView::Code(c), j))
    } else if let Some((m, j)) = math_at(s, i) {
        Some((FileElementView::Math(m), j))
    } else if let Some((l, j)) = link_at(s, i) {
        Some((FileElementView::Link(l), j))
    } else {
        Some((FileElementView::Char(s[i]), i + 1))
    }
}

/// The top-level elements from `i` to the end of the text.
pub open spec fn document_from(s: Seq<char>, i: int) -> Seq<FileElementView>
    decreases s.len() - i,
{
    if let Some((e, j)) = file_element_at(s, i) {
        if i < j <= s.len() {
            seq![e] + document_from(s, j)
        } else {
            Seq::empty()
        }
    } else {
        Seq::empty()
    }
}

/// The parse of the text `s`.
pub open spec fn document(s: Seq<char>) -> Seq<FileElementView> {
    document_from(s, 0)
}

} // verus!

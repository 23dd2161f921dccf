//! A note file from text to notes, and from what the store said back to
//! text; and what holds of the two together.

use vstd::prelude::*;
use crate::cloze::{note_of, notes_view, ClozeData, ClozeDataView};
use crate::collect::{collect, collect_step, collected, Collected, CollectedView};
use crate::document::{ClozeLinesView, FileElementView};
use crate::error::{HandleMdError, MathConvertError};
use crate::grammar::{
    cloze_lines_at, comment_open, document, document_from, file_element_at, lemma_scan_is,
    note_id_comment_at, stops, Stop,
};
use crate::headings::{document_path, path_text};
use crate::parser::parse;
use crate::reconcile::{
    comment_for, content_match_from, cursor, find_match, id_match_from, in_order, marked_seen,
    match_index, offset, replace_last, splice, spliced, spliced_upto, with_identifier, Outcome,
    Resolution,
};
use crate::render::Answers;
use crate::store::{unseen_ids, KnownNote, NoteId};
use crate::text::{
    decimal, digits_value, last_occurrence, lemma_decimal_len, lemma_decimal_round_trip,
    lemma_last_occurrence, pow10, strings_view, text_at,
};

verus! {

/// For each cloze block of the document, in order, how many characters of
/// the source follow it.
pub open spec fn block_remainders(doc: Seq<FileElementView>) -> Seq<nat>
    decreases doc.len(),
{
    if doc.len() == 0 {
        Seq::empty()
    } else {
        match doc.last() {
            FileElementView::ClozeLines(c) => block_remainders(doc.drop_last()).push(c.remaining),
            _ => block_remainders(doc.drop_last()),
        }
    }
}

/// For each note, in order, how many characters of the source follow its
/// block.
pub open spec fn note_remainders(notes: Seq<ClozeDataView>) -> Seq<nat> {
    Seq::new(notes.len(), |k: int| notes[k].remaining_length)
}

/// The numbers fall from one to the next, and all are below `bound`.
pub open spec fn falling_below(rs: Seq<nat>, bound: int) -> bool {
    &&& forall|k: int| 0 <= k < rs.len() ==> #[trigger] rs[k] < bound
    &&& forall|a: int, b: int| 0 <= a < b < rs.len() ==> #[trigger] rs[a] > #[trigger] rs[b]
}

/// The remainders of two documents, one after the other, are those of the
/// documents joined.
pub proof fn lemma_block_remainders_concat(x: Seq<FileElementView>, y: Seq<FileElementView>)
    ensures
        block_remainders(x + y) == block_remainders(x) + block_remainders(y),
    decreases y.len(),
{
    if y.len() == 0 {
        assert(x + y =~= x);
        assert(block_remainders(x) + block_remainders(y) =~= block_remainders(x));
    } else {
        assert((x + y).drop_last() =~= x + y.drop_last());
        assert((x + y).last() == y.last());
        lemma_block_remainders_concat(x, y.drop_last());
        match y.last() {
            FileElementView::ClozeLines(c) => {
                assert((block_remainders(x) + block_remainders(y.drop_last())).push(c.remaining)
                    =~= block_remainders(x) + block_remainders(y.drop_last()).push(c.remaining));
            },
            _ => {},
        }
    }
}

/// The cloze blocks of a parse stand in the order of the text: each ends
/// after the one before it, and the first ends within the text.
pub proof fn lemma_blocks_in_order(s: Seq<char>, i: int)
    requires
        0 <= i <= s.len(),
    ensures
        falling_below(block_remainders(document_from(s, i)), s.len() - i),
    decreases s.len() - i,
{
    match file_element_at(s, i) {
        Some((e, j)) => {
            if i < j <= s.len() {
                lemma_blocks_in_order(s, j);
                let rest = document_from(s, j);
                lemma_block_remainders_concat(seq![e], rest);
                assert(seq![e].drop_last() =~= Seq::<FileElementView>::empty());
                assert(seq![e].last() == e);
                let head = block_remainders(seq![e]);
                let tail = block_remainders(rest);
                assert(block_remainders(Seq::<FileElementView>::empty()) =~= Seq::<nat>::empty());
                match e {
                    FileElementView::ClozeLines(c) => {
                        assert(cloze_lines_at(s, i) == Some((c, j)));
                        assert(c.remaining == s.len() - j);
                        assert(head =~= seq![c.remaining]);
                        assert(falling_below(head + tail, s.len() - i));
                    },
                    _ => {
                        assert(head =~= Seq::<nat>::empty());
                        assert(head + tail =~= tail);
                    },
                }
            }
        },
        None => {},
    }
}

/// The notes that a pass gathers are those of the cloze blocks of the
/// document, one for one.
pub proof fn lemma_notes_follow_blocks(
    doc: Seq<FileElementView>,
    path: Seq<char>,
    answers: Answers,
)
    requires
        collected(doc, path, answers) is Ok,
    ensures
        note_remainders(collected(doc, path, answers)->Ok_0.clozes) == block_remainders(doc),
    decreases doc.len(),
{
    if doc.len() == 0 {
        assert(note_remainders(collected(doc, path, answers)->Ok_0.clozes) =~= Seq::<
            nat,
        >::empty());
    } else {
        lemma_notes_follow_blocks(doc.drop_last(), path, answers);
        let before = collected(doc.drop_last(), path, answers)->Ok_0;
        let after = collected(doc, path, answers)->Ok_0;
        assert(collect_step(before, doc.last(), path, answers) == Ok::<
            CollectedView,
            MathConvertError,
        >(after));
        match doc.last() {
            FileElementView::ClozeLines(c) => {
                assert(note_remainders(after.clozes) =~= note_remainders(before.clozes).push(
                    c.remaining,
                ));
            },
            _ => {
                assert(after.clozes == before.clozes);
            },
        }
    }
}

/// The notes of a file stand in the order of its text: the block of each
/// ends after that of the one before, and within the text.
pub proof fn lemma_notes_in_order(s: Seq<char>, path: Seq<char>, answers: Answers)
    requires
        collected(document(s), path, answers) is Ok,
    ensures
        falling_below(
            note_remainders(collected(document(s), path, answers)->Ok_0.clozes),
            s.len() as int,
        ),
{
    lemma_blocks_in_order(s, 0);
    lemma_notes_follow_blocks(document(s), path, answers);
}

/// Reads the notes of a note file. `text` is what the file holds,
/// `components` are the parts of its path, and `answers` is what was found
/// out about its math and its images. The result holds the tags of the file
/// and the notes of its cloze blocks, in the order of the text. It fails
/// where a math span of a heading or of a cloze block could not be
/// converted: with the error of the first such span.
pub fn handle_md(text: &str, components: &Vec<String>, answers: &Answers) -> (r: Result<
    Collected,
    HandleMdError,
>)
    ensures
        match collected(document(text@), path_text(strings_view(components@)), *answers) {
            Ok(c) => r is Ok && r->Ok_0@ == c && falling_below(
                note_remainders(c.clozes),
                text@.len() as int,
            ),
            Err(e) => r == Err::<Collected, HandleMdError>(HandleMdError::MathConvert(e)),
        },
{
    let doc = parse(text);
    let path = document_path(components);
    match collect(&doc, path.as_str(), answers) {
        Ok(c) => {
            proof {
                lemma_notes_in_order(text@, path@, *answers);
            }
            Ok(c)
        },
        Err(e) => Err(HandleMdError::MathConvert(e)),
    }
}

/// The resolutions of the notes with the outcomes, one for one.
pub open spec fn resolutions_of(clozes: Seq<ClozeData>, outcomes: Seq<Outcome>) -> Seq<
    Resolution,
> {
    Seq::new(
        clozes.len(),
        |i: int|
            Resolution {
                remaining_length: clozes[i].remaining_length,
                prior_id: clozes[i].note_id,
                final_id: outcomes[i].final_id(),
            },
    )
}

/// There is one outcome for each note, and the notes are in the order of a
/// source of `len` characters.
pub open spec fn fits(len: nat, clozes: Seq<ClozeData>, outcomes: Seq<Outcome>) -> bool {
    clozes.len() == outcomes.len() && in_order(len, resolutions_of(clozes, outcomes))
}

/// Rewrites a note file to hold the identifiers of its notes, given what
/// became of each note at the store. Gives nothing if the outcomes are not
/// one for each note, or the notes are not those of this text in its order.
pub fn rewrite(text: &str, clozes: &Vec<ClozeData>, outcomes: &Vec<Outcome>) -> (r: Option<
    String,
>)
    ensures
        match r {
            Some(s) => fits(text@.len(), clozes@, outcomes@) && s@ == spliced(
                text@,
                resolutions_of(clozes@, outcomes@),
            ),
            None => !fits(text@.len(), clozes@, outcomes@),
        },
{
    if clozes.len() != outcomes.len() {
        return None;
    }
    let len = text.unicode_len();
    let ghost rs = resolutions_of(clozes@, outcomes@);
    let mut resolutions: Vec<Resolution> = Vec::new();
    let mut i: usize = 0;
    while i < clozes.len()
        invariant
            i <= clozes@.len() == outcomes@.len(),
            len == text@.len(),
            rs == resolutions_of(clozes@, outcomes@),
            resolutions@ =~= rs.take(i as int),
            in_order(text@.len(), rs.take(i as int)),
        decreases clozes@.len() - i,
    {
        let r = Resolution::new(&clozes[i], outcomes[i]);
        assert(r == rs[i as int]);
        if r.remaining_length > len || (i > 0 && resolutions[i - 1].remaining_length
            < r.remaining_length) {
            proof {
                if r.remaining_length <= len {
                    assert(rs[i - 1].remaining_length < rs[i as int].remaining_length);
                }
            }
            return None;
        }
        proof {
            let next = rs.take(i + 1);
            assert forall|a: int, b: int| 0 <= a < b < next.len() implies (
            #[trigger] next[a]).remaining_length >= (#[trigger] next[b]).remaining_length by {
                if b == i {
                    if a < i - 1 {
                        assert(rs.take(i as int)[a].remaining_length >= rs.take(
                            i as int,
                        )[i - 1].remaining_length);
                    }
                } else {
                    assert(rs.take(i as int)[a].remaining_length >= rs.take(
                        i as int,
                    )[b].remaining_length);
                }
            }
            assert forall|a: int| 0 <= a < next.len() implies (#[trigger] next[a]).remaining_length
                <= text@.len() by {
                if a < i {
                    assert(rs.take(i as int)[a].remaining_length <= text@.len());
                }
            }
        }
        resolutions.push(r);
        i += 1;
    }
    assert(rs.take(i as int) =~= rs);
    Some(splice(text, &resolutions))
}

/// The notes that `handle_md` gives fit the text that they were read from,
/// whatever became of them at the store: `rewrite` then gives a text.
pub proof fn lemma_read_notes_fit(
    text: Seq<char>,
    path: Seq<char>,
    answers: Answers,
    clozes: Seq<ClozeData>,
    outcomes: Seq<Outcome>,
)
    requires
        collected(document(text), path, answers) is Ok,
        collected(document(text), path, answers)->Ok_0.clozes == notes_view(clozes),
        outcomes.len() == clozes.len(),
    ensures
        fits(text.len(), clozes, outcomes),
{
    lemma_notes_in_order(text, path, answers);
    let rems = note_remainders(notes_view(clozes));
    let rs = resolutions_of(clozes, outcomes);
    assert forall|i: int| 0 <= i < rs.len() implies (#[trigger] rs[i]).remaining_length
        <= text.len() by {
        assert(rems[i] == clozes[i].remaining_length);
    }
    assert forall|i: int, j: int| 0 <= i < j < rs.len() implies (#[trigger] rs[i]).remaining_length
        >= (#[trigger] rs[j]).remaining_length by {
        assert(rems[i] == clozes[i].remaining_length);
        assert(rems[j] == clozes[j].remaining_length);
    }
}

/// Replacing a text by itself changes nothing.
pub proof fn lemma_replace_same(hay: Seq<char>, needle: Seq<char>)
    ensures
        replace_last(hay, needle, needle) == hay,
{
    lemma_last_occurrence(hay, needle);
    match last_occurrence(hay, needle) {
        Some(q) => {
            assert(text_at(hay, q, needle));
            assert(hay.subrange(0, q) + needle + hay.subrange(q + needle.len(), hay.len() as int)
                =~= hay);
        },
        None => {},
    }
}

/// No note gets a new identifier: each has failed at the store, or is held
/// there under the identifier that the source holds for it.
pub open spec fn nothing_new(rs: Seq<Resolution>) -> bool {
    forall|i: int|
        0 <= i < rs.len() ==> (#[trigger] rs[i]).final_id is None || (rs[i].prior_id is Some
            && rs[i].final_id == rs[i].prior_id)
}

/// As long as no note gets a new identifier, what is written is the source
/// up to the cursor.
pub proof fn lemma_copy_so_far(source: Seq<char>, rs: Seq<Resolution>, k: int)
    requires
        in_order(source.len(), rs),
        nothing_new(rs),
        0 <= k <= rs.len(),
    ensures
        spliced_upto(source, rs, k) == source.subrange(0, cursor(source.len(), rs, k)),
    decreases k,
{
    if k <= 0 {
        assert(source.subrange(0, 0) =~= Seq::<char>::empty());
    } else {
        lemma_copy_so_far(source, rs, k - 1);
        let from = cursor(source.len(), rs, k - 1);
        let to = offset(source.len(), rs, k - 1);
        if k - 1 > 0 {
            assert(rs[k - 2].remaining_length >= rs[k - 1].remaining_length);
        }
        assert(rs[k - 1].remaining_length <= source.len());
        let out = source.subrange(0, from) + source.subrange(from, to);
        assert(out =~= source.subrange(0, to));
        let r = rs[k - 1];
        if r.final_id is Some {
            lemma_replace_same(out, decimal(r.prior_id->Some_0.0 as nat));
        }
    }
}

/// A second run changes nothing in the file. Where every note of a file
/// holds its identifier already, and the store holds each note under that
/// identifier or fails, the file is rewritten to what it was.
pub proof fn lemma_rerun_changes_nothing(source: Seq<char>, rs: Seq<Resolution>)
    requires
        in_order(source.len(), rs),
        nothing_new(rs),
    ensures
        spliced(source, rs) == source,
{
    lemma_copy_so_far(source, rs, rs.len() as int);
    let c = cursor(source.len(), rs, rs.len() as int);
    if rs.len() > 0 {
        assert(rs[rs.len() - 1].remaining_length <= source.len());
    }
    assert(source.subrange(0, c) + source.subrange(c, source.len() as int) =~= source);
}

/// A new note gets its comment right after its block. Where a file has one
/// note, the source holds no identifier for it, and the store creates it as
/// `id`, the file is rewritten to: the source up to the end of the note's
/// block, a line break, the identifier comment for `id`, and the rest of the
/// source.
pub proof fn lemma_created_note_gets_comment(source: Seq<char>, r: Resolution, id: u64)
    requires
        r.remaining_length <= source.len(),
        r.prior_id is None,
        r.final_id == Some(NoteId(id)),
    ensures
        spliced(source, seq![r]) == source.subrange(0, source.len() - r.remaining_length)
            + comment_for(id) + source.subrange(
            source.len() - r.remaining_length,
            source.len() as int,
        ),
{
    let rs = seq![r];
    let k = source.len() - r.remaining_length;
    assert(spliced_upto(source, rs, 0) =~= Seq::<char>::empty());
    assert(spliced_upto(source, rs, 1) == with_identifier(
        spliced_upto(source, rs, 0) + source.subrange(0, k),
        r,
    ));
    assert(Seq::<char>::empty() + source.subrange(0, k) =~= source.subrange(0, k));
}

/// A note that failed at the store leaves no trace: the text written for
/// it is the source, as far as it was copied.
pub proof fn lemma_failed_note_changes_nothing(out: Seq<char>, r: Resolution)
    requires
        r.final_id is None,
    ensures
        with_identifier(out, r) == out,
{
}

/// The snapshot after the notes were matched with it, one after the other:
/// each known note that one of them was matched with is marked as seen.
pub open spec fn seen_after(known: Seq<KnownNote>, notes: Seq<ClozeDataView>) -> Seq<KnownNote>
    decreases notes.len(),
{
    if notes.len() == 0 {
        known
    } else {
        let before = seen_after(known, notes.drop_last());
        match match_index(before, notes.last()) {
            Some(k) => marked_seen(before, k),
            None => before,
        }
    }
}

/// Marks the known notes that the notes of a file are matched with as
/// seen, without asking anything of the store.
pub fn mark_notes_as_seen(clozes: &Vec<ClozeData>, known: &mut Vec<KnownNote>)
    ensures
        final(known)@ == seen_after(old(known)@, notes_view(clozes@)),
{
    let ghost notes = notes_view(clozes@);
    let mut i: usize = 0;
    assert(notes.take(0) =~= Seq::<ClozeDataView>::empty());
    while i < clozes.len()
        invariant
            i <= clozes@.len(),
            notes == notes_view(clozes@),
            known@ == seen_after(old(known)@, notes.take(i as int)),
        decreases clozes@.len() - i,
    {
        proof {
            assert(notes.take(i + 1).drop_last() =~= notes.take(i as int));
            assert(notes.take(i + 1).last() == clozes@[i as int]@);
        }
        let _ = find_match(&clozes[i], known);
        i += 1;
    }
    assert(notes.take(i as int) =~= notes);
}

/// Two snapshots hold the same notes; they may differ in what was seen.
pub open spec fn same_notes(a: Seq<KnownNote>, b: Seq<KnownNote>) -> bool {
    a.len() == b.len() && forall|i: int| 0 <= i < a.len() ==> (#[trigger] a[i]).note == b[i].note
}

/// Which known note a note of a file is does not depend on what was seen.
pub proof fn lemma_match_ignores_seen(a: Seq<KnownNote>, b: Seq<KnownNote>, cloze: ClozeDataView)
    requires
        same_notes(a, b),
    ensures
        match_index(a, cloze) == match_index(b, cloze),
{
    match cloze.note_id {
        Some(id) => {
            lemma_id_match_ignores_seen(a, b, id, 0);
        },
        None => {},
    }
    lemma_content_match_ignores_seen(a, b, cloze.contents, 0);
}

/// The search by identifier does not depend on what was seen.
pub proof fn lemma_id_match_ignores_seen(a: Seq<KnownNote>, b: Seq<KnownNote>, id: u64, i: int)
    requires
        same_notes(a, b),
    ensures
        id_match_from(a, id, i) == id_match_from(b, id, i),
    decreases a.len() - i,
{
    if 0 <= i < a.len() {
        assert(a[i].note == b[i].note);
        if a[i].note.id.0 != id {
            lemma_id_match_ignores_seen(a, b, id, i + 1);
        }
    }
}

/// The search by text does not depend on what was seen.
pub proof fn lemma_content_match_ignores_seen(
    a: Seq<KnownNote>,
    b: Seq<KnownNote>,
    contents: Seq<char>,
    i: int,
)
    requires
        same_notes(a, b),
    ensures
        content_match_from(a, contents, i) == content_match_from(b, contents, i),
    decreases a.len() - i,
{
    if 0 <= i < a.len() {
        assert(a[i].note == b[i].note);
        if a[i].note.text() != Some(contents) {
            lemma_content_match_ignores_seen(a, b, contents, i + 1);
        }
    }
}

/// What was found matches what was there.
pub proof fn lemma_match_index_bounds(known: Seq<KnownNote>, cloze: ClozeDataView)
    ensures
        match match_index(known, cloze) {
            Some(k) => 0 <= k < known.len(),
            None => true,
        },
{
    match cloze.note_id {
        Some(id) => lemma_id_match_bounds(known, id, 0),
        None => {},
    }
    lemma_content_match_bounds(known, cloze.contents, 0);
}

/// A search by identifier finds an index of the snapshot.
pub proof fn lemma_id_match_bounds(known: Seq<KnownNote>, id: u64, i: int)
    ensures
        match id_match_from(known, id, i) {
            Some(k) => 0 <= k < known.len(),
            None => true,
        },
    decreases known.len() - i,
{
    if 0 <= i < known.len() && known[i].note.id.0 != id {
        lemma_id_match_bounds(known, id, i + 1);
    }
}

/// A search by text finds an index of the snapshot.
pub proof fn lemma_content_match_bounds(known: Seq<KnownNote>, contents: Seq<char>, i: int)
    ensures
        match content_match_from(known, contents, i) {
            Some(k) => 0 <= k < known.len(),
            None => true,
        },
    decreases known.len() - i,
{
    if 0 <= i < known.len() && known[i].note.text() != Some(contents) {
        lemma_content_match_bounds(known, contents, i + 1);
    }
}

/// A known note that is not seen is among those offered for deletion.
pub proof fn lemma_unseen_is_offered(known: Seq<KnownNote>, j: int)
    requires
        0 <= j < known.len(),
        !known[j].seen,
    ensures
        unseen_ids(known).contains(known[j].note.id),
    decreases known.len(),
{
    let before = unseen_ids(known.drop_last());
    if j == known.len() - 1 {
        assert(before.push(known[j].note.id)[before.len() as int] == known[j].note.id);
    } else {
        lemma_unseen_is_offered(known.drop_last(), j);
        let k = choose|k: int| 0 <= k < before.len() && before[k] == known[j].note.id;
        if !known.last().seen {
            assert(before.push(known.last().note.id)[k] == known[j].note.id);
        }
    }
}

/// A known note that no note of a run is matched with stays unseen, and is
/// offered for deletion at the end of the run.
pub proof fn lemma_unmatched_stays_unseen(
    known: Seq<KnownNote>,
    notes: Seq<ClozeDataView>,
    j: int,
)
    requires
        0 <= j < known.len(),
        !known[j].seen,
        forall|i: int| 0 <= i < notes.len() ==> match_index(known, #[trigger] notes[i]) != Some(j),
    ensures
        same_notes(known, seen_after(known, notes)),
        !seen_after(known, notes)[j].seen,
        unseen_ids(seen_after(known, notes)).contains(known[j].note.id),
    decreases notes.len(),
{
    if notes.len() > 0 {
        let init = notes.drop_last();
        assert forall|i: int| 0 <= i < init.len() implies match_index(known, #[trigger] init[i])
            != Some(j) by {
            assert(init[i] == notes[i]);
        }
        lemma_unmatched_stays_unseen(known, init, j);
        let before = seen_after(known, init);
        lemma_match_ignores_seen(known, before, notes.last());
        lemma_match_index_bounds(before, notes.last());
        assert(match_index(known, notes[notes.len() - 1]) != Some(j));
    }
    lemma_unseen_is_offered(seen_after(known, notes), j);
}

/// A second run changes nothing in the file. Where the source holds an
/// identifier for every note of the file, and each note was updated under
/// that identifier or failed at the store, `rewrite` gives the text that it
/// was given.
pub proof fn lemma_second_run_changes_nothing(
    text: Seq<char>,
    clozes: Seq<ClozeData>,
    outcomes: Seq<Outcome>,
)
    requires
        fits(text.len(), clozes, outcomes),
        forall|i: int|
            0 <= i < clozes.len() ==> (#[trigger] clozes[i]).note_id is Some && (outcomes[i]
                == Outcome::Failed || outcomes[i] == Outcome::Updated(clozes[i].note_id->Some_0)),
    ensures
        spliced(text, resolutions_of(clozes, outcomes)) == text,
{
    let rs = resolutions_of(clozes, outcomes);
    assert forall|i: int| 0 <= i < rs.len() implies (#[trigger] rs[i]).final_id is None || (
    rs[i].prior_id is Some && rs[i].final_id == rs[i].prior_id) by {
        assert(clozes[i].note_id is Some);
    }
    lemma_rerun_changes_nothing(text, rs);
}

/// The numbering of clozes starts anew in every block: the note that a
/// cloze block adds is the same whatever notes and tags were gathered
/// before it. It depends on the block, the headings above it, the path and
/// the answers alone.
pub proof fn lemma_numbering_starts_anew(
    first: CollectedView,
    second: CollectedView,
    block: ClozeLinesView,
    path: Seq<char>,
    answers: Answers,
)
    requires
        first.headings == second.headings,
        collect_step(first, FileElementView::ClozeLines(block), path, answers) is Ok,
    ensures
        collect_step(second, FileElementView::ClozeLines(block), path, answers) is Ok,
        collect_step(first, FileElementView::ClozeLines(block), path, answers)->Ok_0.clozes.last()
            == collect_step(
            second,
            FileElementView::ClozeLines(block),
            path,
            answers,
        )->Ok_0.clozes.last(),
        collect_step(first, FileElementView::ClozeLines(block), path, answers)->Ok_0.clozes.last()
            == note_of(block, first.headings, path, answers)->Ok_0,
{
}

/// A comment that was written is read back. Where the comment for an
/// identifier of ten to thirteen digits stands in a text, and no digit
/// follows its digits, the grammar finds an identifier comment there, and
/// its digits stand for that identifier.
pub proof fn lemma_written_comment_is_read(s: Seq<char>, i: int, id: u64)
    requires
        1_000_000_000 <= id < 10_000_000_000_000,
        text_at(s, i, comment_for(id)),
    ensures
        note_id_comment_at(s, i) is Some,
        note_id_comment_at(s, i)->Some_0.0.digits == decimal(id as nat),
        digits_value(note_id_comment_at(s, i)->Some_0.0.digits) == id,
{
    let digits = decimal(id as nat);
    let whole = comment_for(id);
    let open = comment_open();
    lemma_decimal_round_trip(id as nat);
    assert(pow10(9) == 1_000_000_000 && pow10(13) == 10_000_000_000_000) by {
        reveal_with_fuel(pow10, 14);
    }
    lemma_decimal_len(id as nat, 10);
    lemma_decimal_len(id as nat, 13);
    let d0 = i + 1 + open.len();
    let d1 = d0 + digits.len();
    assert(s.subrange(i, i + whole.len()) == whole);
    assert forall|k: int| 0 <= k < whole.len() implies s[i + k] == whole[k] by {
        assert(s.subrange(i, i + whole.len())[k] == s[i + k]);
    }
    assert(s[i] == whole[0]);
    assert(s.subrange(i + 1, d0) =~= open) by {
        assert forall|k: int| 0 <= k < open.len() implies s[i + 1 + k] == open[k] by {
            assert(whole[1 + k] == open[k]);
        }
    }
    assert forall|k: int| d0 <= k < d1 implies !stops(Stop::NonDigit, s, k) by {
        assert(whole[k - i] == digits[k - d0]);
    }
    assert(s[d1] == '-' && s[d1 + 1] == '-' && s[d1 + 2] == '>') by {
        assert(whole[d1 - i] == '-');
        assert(whole[d1 + 1 - i] == '-');
        assert(whole[d1 + 2 - i] == '>');
    }
    lemma_scan_is(s, d0, d1, Stop::NonDigit);
    assert(s.subrange(d0, d1) =~= digits) by {
        assert forall|k: int| 0 <= k < digits.len() implies s[d0 + k] == digits[k] by {
            assert(whole[d0 + k - i] == digits[k]);
        }
    }
}

} // verus!

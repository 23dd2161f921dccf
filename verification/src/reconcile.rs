//! The reconciler: which known note a note of a file is, what becomes of it
//! at the store, and how the file is rewritten to hold the identifiers.

use vstd::prelude::*;
use crate::cloze::{ClozeData, ClozeDataView};
use crate::grammar::comment_open;
use crate::store::{KnownNote, NoteId, RequestError};
use crate::text::{
    chars_of, decimal, find_last, last_occurrence, push_decimal, push_range, push_text, string_from,
};

verus! {

/// The first index from `i` on of a known note with the identifier `id`.
pub open spec fn id_match_from(known: Seq<KnownNote>, id: u64, i: int) -> Option<int>
    decreases known.len() - i,
{
    if i < 0 || i >= known.len() {
        None
    } else if known[i].note.id.0 == id {
        Some(i)
    } else {
        id_match_from(known, id, i + 1)
    }
}

/// The first index from `i` on of a known note with the text `contents`.
pub open spec fn content_match_from(known: Seq<KnownNote>, contents: Seq<char>, i: int) -> Option<
    int,
>
    decreases known.len() - i,
{
    if i < 0 || i >= known.len() {
        None
    } else if known[i].note.text() == Some(contents) {
        Some(i)
    } else {
        content_match_from(known, contents, i + 1)
    }
}

/// The index of the known note with the identifier that the note of the
/// file holds: the first, if there are several.
pub open spec fn id_match(known: Seq<KnownNote>, cloze: ClozeDataView) -> Option<int> {
    match cloze.note_id {
        Some(id) => id_match_from(known, id, 0),
        None => None,
    }
}

/// The index of the known note that a note of a file is. A known note with
/// the identifier that the file holds for the note comes first. If there is
/// none, or the file holds no identifier, it is the first known note with
/// the same text.
pub open spec fn match_index(known: Seq<KnownNote>, cloze: ClozeDataView) -> Option<int> {
    match id_match(known, cloze) {
        Some(k) => Some(k),
        None => content_match_from(known, cloze.contents, 0),
    }
}

/// A known note other than those with the identifier `id` has the text
/// `contents`.
pub open spec fn content_elsewhere(known: Seq<KnownNote>, contents: Seq<char>, id: u64) -> bool {
    exists|j: int|
        0 <= j < known.len() && (#[trigger] known[j]).note.text() == Some(contents)
            && known[j].note.id.0 != id
}

/// By what a note of a file was matched with a known note.
#[derive(Clone, Copy, Debug, PartialEq, Eq)]
pub enum MatchedBy {
    Id,
    Content,
}

/// The known note that a note of a file was matched with.
#[derive(Clone, Copy, Debug, PartialEq, Eq)]
pub struct Match {
    pub id: NoteId,
    pub by: MatchedBy,
    /// The match is by identifier, and a known note with another identifier
    /// has the same text.
    pub conflict: bool,
}

/// The match that the known note at index `k` is for the note of a file.
pub open spec fn match_at(known: Seq<KnownNote>, cloze: ClozeDataView, k: int) -> Match {
    if id_match(known, cloze) is Some {
        Match {
            id: known[k].note.id,
            by: MatchedBy::Id,
            conflict: content_elsewhere(known, cloze.contents, known[k].note.id.0),
        }
    } else {
        Match { id: known[k].note.id, by: MatchedBy::Content, conflict: false }
    }
}

/// The snapshot with the note at index `k` marked as seen.
pub open spec fn marked_seen(known: Seq<KnownNote>, k: int) -> Seq<KnownNote> {
    known.update(k, KnownNote { note: known[k].note, seen: true })
}

fn find_by_id(known: &Vec<KnownNote>, id: u64) -> (r: Option<usize>)
    ensures
        match r {
            Some(k) => id_match_from(known@, id, 0) == Some(k as int) && k < known@.len(),
            None => id_match_from(known@, id, 0) is None,
        },
{
    let mut i: usize = 0;
    while i < known.len()
        invariant
            i <= known@.len(),
            id_match_from(known@, id, 0) == id_match_from(known@, id, i as int),
        decreases known@.len() - i,
    {
        if known[i].note.id.0 == id {
            return Some(i);
        }
        i += 1;
    }
    None
}

fn find_by_content(known: &Vec<KnownNote>, contents: &String) -> (r: Option<usize>)
    ensures
        match r {
            Some(k) => content_match_from(known@, contents@, 0) == Some(k as int) && k
                < known@.len(),
            None => content_match_from(known@, contents@, 0) is None,
        },
{
    let mut i: usize = 0;
    while i < known.len()
        invariant
            i <= known@.len(),
            content_match_from(known@, contents@, 0) == content_match_from(
                known@,
                contents@,
                i as int,
            ),
        decreases known@.len() - i,
    {
        if known[i].note.has_text(contents) {
            return Some(i);
        }
        i += 1;
    }
    None
}

fn has_content_elsewhere(known: &Vec<KnownNote>, contents: &String, id: u64) -> (r: bool)
    ensures
        r == content_elsewhere(known@, contents@, id),
{
    let mut i: usize = 0;
    while i < known.len()
        invariant
            i <= known@.len(),
            forall|j: int|
                0 <= j < i ==> !((#[trigger] known@[j]).note.text() == Some(contents@)
                    && known@[j].note.id.0 != id),
        decreases known@.len() - i,
    {
        if known[i].note.id.0 != id && known[i].note.has_text(contents) {
            return true;
        }
        i += 1;
    }
    false
}

/// Finds the known note that a note of a file is, and marks it as seen.
/// Nothing else changes in the snapshot.
pub fn find_match(cloze: &ClozeData, known: &mut Vec<KnownNote>) -> (r: Option<Match>)
    ensures
        match match_index(old(known)@, cloze@) {
            Some(k) => 0 <= k < old(known)@.len() && r == Some(match_at(old(known)@, cloze@, k))
                && final(known)@ == marked_seen(old(known)@, k),
            None => r is None && final(known)@ == old(known)@,
        },
{
    let by_id = match cloze.note_id {
        Some(id) => find_by_id(known, id.0),
        None => None,
    };
    match by_id {
        Some(k) => {
            let id = known[k].note.id;
            let conflict = has_content_elsewhere(known, &cloze.contents, id.0);
            known[k].seen = true;
            assert(known@ =~= marked_seen(old(known)@, k as int));
            Some(Match { id, by: MatchedBy::Id, conflict })
        },
        None => match find_by_content(known, &cloze.contents) {
            Some(k) => {
                let id = known[k].note.id;
                known[k].seen = true;
                assert(known@ =~= marked_seen(old(known)@, k as int));
                Some(Match { id, by: MatchedBy::Content, conflict: false })
            },
            None => None,
        },
    }
}

/// A match by identifier wins: where the file holds an identifier for a
/// note and a known note has it, the note is matched with the first such
/// known note, whatever known notes have the same text.
pub proof fn lemma_id_match_wins(known: Seq<KnownNote>, cloze: ClozeDataView, x: int)
    requires
        0 <= x < known.len(),
        cloze.note_id == Some(known[x].note.id.0),
    ensures
        match_index(known, cloze) is Some,
        known[match_index(known, cloze)->Some_0].note.id == known[x].note.id,
        0 <= match_index(known, cloze)->Some_0 <= x,
        match_at(known, cloze, match_index(known, cloze)->Some_0).by == MatchedBy::Id,
{
    lemma_id_match_from(known, known[x].note.id.0, 0, x);
}

/// A note whose text a known note has is matched: with that known note or
/// one before it, if no known note has the identifier that the file holds
/// for it.
pub proof fn lemma_known_text_is_matched(known: Seq<KnownNote>, cloze: ClozeDataView, y: int)
    requires
        0 <= y < known.len(),
        known[y].note.text() == Some(cloze.contents),
    ensures
        match_index(known, cloze) is Some,
        id_match(known, cloze) is None ==> 0 <= match_index(known, cloze)->Some_0 <= y
            && known[match_index(known, cloze)->Some_0].note.text() == Some(cloze.contents),
{
    lemma_content_match_from(known, cloze.contents, 0, y);
}

/// A search by text from `i` on finds the first known note at or after `i`
/// with that text.
pub proof fn lemma_content_match_from(known: Seq<KnownNote>, contents: Seq<char>, i: int, y: int)
    requires
        0 <= i <= y < known.len(),
        known[y].note.text() == Some(contents),
    ensures
        content_match_from(known, contents, i) is Some,
        i <= content_match_from(known, contents, i)->Some_0 <= y,
        known[content_match_from(known, contents, i)->Some_0].note.text() == Some(contents),
    decreases y - i,
{
    if known[i].note.text() != Some(contents) {
        lemma_content_match_from(known, contents, i + 1, y);
    }
}

/// A search by identifier from `i` on finds the first known note at or
/// after `i` with that identifier.
pub proof fn lemma_id_match_from(known: Seq<KnownNote>, id: u64, i: int, x: int)
    requires
        0 <= i <= x < known.len(),
        known[x].note.id.0 == id,
    ensures
        id_match_from(known, id, i) is Some,
        i <= id_match_from(known, id, i)->Some_0 <= x,
        known[id_match_from(known, id, i)->Some_0].note.id.0 == id,
    decreases x - i,
{
    if known[i].note.id.0 != id {
        lemma_id_match_from(known, id, i + 1, x);
    }
}

/// What became of a note at the store.
#[derive(Clone, Copy, Debug, PartialEq, Eq)]
pub enum Outcome {
    /// The known note with this identifier was updated.
    Updated(NoteId),
    /// The note was created, with this identifier.
    Created(NoteId),
    /// The store refused, or could not be reached.
    Failed,
}

impl Outcome {
    /// The identifier under which the store now holds the note, if it does.
    pub open spec fn final_id_spec(self) -> Option<NoteId> {
        match self {
            Outcome::Updated(id) => Some(id),
            Outcome::Created(id) => Some(id),
            Outcome::Failed => None,
        }
    }

    /// The identifier under which the store now holds the note, if it does.
    #[verifier::when_used_as_spec(final_id_spec)]
    pub fn final_id(self) -> (r: Option<NoteId>)
        ensures
            r == self.final_id_spec(),
    {
        match self {
            Outcome::Updated(id) => Some(id),
            Outcome::Created(id) => Some(id),
            Outcome::Failed => None,
        }
    }
}

/// What became of a matched note: it was updated if the store said so.
pub fn update_outcome(id: NoteId, reply: &Result<(), RequestError>) -> (r: Outcome)
    ensures
        r == (match *reply {
            Ok(_) => Outcome::Updated(id),
            Err(_) => Outcome::Failed,
        }),
{
    match reply {
        Ok(_) => Outcome::Updated(id),
        Err(_) => Outcome::Failed,
    }
}

/// What became of a note without a match: it was created if the store gave
/// it an identifier.
pub fn create_outcome(reply: &Result<NoteId, RequestError>) -> (r: Outcome)
    ensures
        r == (match *reply {
            Ok(id) => Outcome::Created(id),
            Err(_) => Outcome::Failed,
        }),
{
    match reply {
        Ok(id) => Outcome::Created(*id),
        Err(_) => Outcome::Failed,
    }
}

/// What became of a note that the store refused as a duplicate, given what
/// a search for notes with its text found: the note is the first that was
/// found. Without one, or where the search failed, it has failed.
pub fn duplicate_outcome(found: &Result<Vec<NoteId>, RequestError>) -> (r: Outcome)
    ensures
        r == (match *found {
            Ok(ids) => if ids@.len() > 0 {
                Outcome::Updated(ids@[0])
            } else {
                Outcome::Failed
            },
            Err(_) => Outcome::Failed,
        }),
{
    match found {
        Ok(ids) => if ids.len() > 0 {
            Outcome::Updated(ids[0])
        } else {
            Outcome::Failed
        },
        Err(_) => Outcome::Failed,
    }
}

/// A note of a file after the store was asked: where its block ends in the
/// source, the identifier that the source holds for it, and the one under
/// which the store holds it now.
#[derive(Clone, Copy, Debug, PartialEq, Eq)]
pub struct Resolution {
    /// How many characters of the source follow the note's block.
    pub remaining_length: usize,
    pub prior_id: Option<NoteId>,
    pub final_id: Option<NoteId>,
}

impl Resolution {
    /// The resolution of a note with the given outcome.
    pub fn new(cloze: &ClozeData, outcome: Outcome) -> (r: Self)
        ensures
            r == (Resolution {
                remaining_length: cloze.remaining_length,
                prior_id: cloze.note_id,
                final_id: outcome.final_id(),
            }),
    {
        Resolution {
            remaining_length: cloze.remaining_length,
            prior_id: cloze.note_id,
            final_id: outcome.final_id(),
        }
    }
}

/// The identifier comment for `id`, with the line break before it.
pub open spec fn comment_for(id: u64) -> Seq<char> {
    seq!['\n'] + comment_open() + decimal(id as nat) + seq!['-', '-', '>']
}

/// `hay` with the last occurrence of `needle` replaced by `with`; `hay`
/// itself if `needle` does not occur.
pub open spec fn replace_last(hay: Seq<char>, needle: Seq<char>, with: Seq<char>) -> Seq<char> {
    match last_occurrence(hay, needle) {
        Some(q) => hay.subrange(0, q) + with + hay.subrange(q + needle.len(), hay.len() as int),
        None => hay,
    }
}

/// What a note does to the text written so far, which ends where its block
/// ends. A note that failed at the store changes nothing. A note without an
/// identifier in the source gets its comment appended. For a note with one,
/// the last occurrence of that identifier's digits becomes the digits of
/// the new one.
pub open spec fn with_identifier(out: Seq<char>, r: Resolution) -> Seq<char> {
    match (r.prior_id, r.final_id) {
        (_, None) => out,
        (None, Some(id)) => out + comment_for(id.0),
        (Some(prior), Some(id)) => replace_last(
            out,
            decimal(prior.0 as nat),
            decimal(id.0 as nat),
        ),
    }
}

/// The notes are in the order of the source, and each ends within it.
pub open spec fn in_order(len: nat, rs: Seq<Resolution>) -> bool {
    &&& forall|i: int| 0 <= i < rs.len() ==> (#[trigger] rs[i]).remaining_length <= len
    &&& forall|i: int, j: int|
        0 <= i < j < rs.len() ==> (#[trigger] rs[i]).remaining_length >= (
        #[trigger] rs[j]).remaining_length
}

/// Where the block of the note at index `k` ends in a source of `len`
/// characters.
pub open spec fn offset(len: nat, rs: Seq<Resolution>, k: int) -> int {
    len - rs[k].remaining_length
}

/// Up to where the source has been copied when `k` notes are done.
pub open spec fn cursor(len: nat, rs: Seq<Resolution>, k: int) -> int {
    if k <= 0 {
        0
    } else {
        offset(len, rs, k - 1)
    }
}

/// The text written when `k` notes are done: for each note in turn, the
/// source from the cursor up to the end of the note's block, and then what
/// the note's identifier takes.
pub open spec fn spliced_upto(source: Seq<char>, rs: Seq<Resolution>, k: int) -> Seq<char>
    decreases k,
{
    if k <= 0 {
        Seq::empty()
    } else {
        with_identifier(
            spliced_upto(source, rs, k - 1) + source.subrange(
                cursor(source.len(), rs, k - 1),
                offset(source.len(), rs, k - 1),
            ),
            rs[k - 1],
        )
    }
}

/// The source rewritten to hold the identifiers of its notes.
pub open spec fn spliced(source: Seq<char>, rs: Seq<Resolution>) -> Seq<char> {
    spliced_upto(source, rs, rs.len() as int) + source.subrange(
        cursor(source.len(), rs, rs.len() as int),
        source.len() as int,
    )
}

fn apply_identifier(out: Vec<char>, r: &Resolution) -> (res: Vec<char>)
    ensures
        res@ == with_identifier(out@, *r),
{
    let ghost before = out@;
    let mut out = out;
    match (r.prior_id, r.final_id) {
        (_, None) => out,
        (None, Some(id)) => {
            out.push('\n');
            push_text(&mut out, "<!--NoteID:");
            push_decimal(&mut out, id.0);
            out.push('-');
            out.push('-');
            out.push('>');
            assert(out@ =~= before + comment_for(id.0));
            out
        },
        (Some(prior), Some(id)) => {
            let mut needle: Vec<char> = Vec::new();
            push_decimal(&mut needle, prior.0);
            assert(needle@ =~= decimal(prior.0 as nat));
            match find_last(out.as_slice(), needle.as_slice()) {
                None => out,
                Some(q) => {
                    let total = out.len();
                    let mut res: Vec<char> = Vec::new();
                    push_range(&mut res, out.as_slice(), 0, q);
                    push_decimal(&mut res, id.0);
                    push_range(&mut res, out.as_slice(), q + needle.len(), total);
                    assert(res@ =~= replace_last(
                        out@,
                        decimal(prior.0 as nat),
                        decimal(id.0 as nat),
                    ));
                    res
                },
            }
        },
    }
}

/// Rewrites the source of a note file to hold the identifiers of its notes.
/// Everything else in it stays as it is, character for character.
pub fn splice(source: &str, resolutions: &Vec<Resolution>) -> (r: String)
    requires
        in_order(source@.len(), resolutions@),
    ensures
        r@ == spliced(source@, resolutions@),
{
    let chars = chars_of(source);
    let s = chars.as_slice();
    let n = s.len();
    let mut out: Vec<char> = Vec::new();
    let mut last_read: usize = 0;
    let mut k: usize = 0;
    while k < resolutions.len()
        invariant
            k <= resolutions@.len(),
            s@ == source@,
            n == s@.len(),
            in_order(source@.len(), resolutions@),
            last_read == cursor(source@.len(), resolutions@, k as int),
            last_read <= n,
            out@ == spliced_upto(source@, resolutions@, k as int),
        decreases resolutions@.len() - k,
    {
        let r = &resolutions[k];
        let index: usize = n - r.remaining_length;
        proof {
            if k > 0 {
                assert(resolutions@[k - 1].remaining_length
                    >= resolutions@[k as int].remaining_length);
            }
        }
        push_range(&mut out, s, last_read, index);
        out = apply_identifier(out, r);
        last_read = index;
        k += 1;
    }
    push_range(&mut out, s, last_read, n);
    string_from(&out)
}

} // verus!

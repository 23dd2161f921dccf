//! The flashcard store: what is asked of it, what its replies mean, and how
//! often a request is tried again.
//!
//! Nothing here talks to the store. A request is a value that the caller
//! sends; a reply is a value that the caller hands back.

use vstd::prelude::*;
use crate::render::Picture;
use crate::text::{chars_of, decimal, push_decimal, same_str, string_from, string_of};

verus! {

/// The identifier of a note in the store: the time of its creation in
/// milliseconds, which takes thirteen decimal digits.
#[derive(Clone, Copy, Debug, PartialEq, Eq, Hash)]
pub struct NoteId(pub u64);

/// How many times a request that could not be sent is tried again.
pub const MAX_BACKOFF: u8 = 5;

/// The version of the store's protocol that every request names.
pub const PROTOCOL_VERSION: u8 = 6;

/// Why a request failed.
#[derive(Debug, PartialEq, Eq)]
pub enum RequestError {
    /// The request could not be sent, however often it was tried.
    AnkiConncectRequest(String),
    /// The reply could not be read.
    Deserialisation(String),
    /// The store answered with an error.
    AnkiConnectError(String),
    /// The store answered with an error and with a result.
    ErrorAndResult { error: String },
    /// The store answered with neither an error nor a result.
    ErrorNorResult,
    /// The reply's status was not one of success.
    ErrStatus(u16),
}

/// What the store is asked to do.
#[derive(Clone, Copy, Debug, PartialEq, Eq)]
pub enum ActionType {
    AddNote,
    DeleteNotes,
    UpdateNote,
    NotesInfo,
    CreateDeck,
    StoreMediaFile,
}

/// The name of an action in a request.
pub open spec fn action_name(action: ActionType) -> Seq<char> {
    match action {
        ActionType::AddNote => "addNote"@,
        ActionType::DeleteNotes => "deleteNotes"@,
        ActionType::UpdateNote => "updateNote"@,
        ActionType::NotesInfo => "notesInfo"@,
        ActionType::CreateDeck => "createDeck"@,
        ActionType::StoreMediaFile => "storeMediaFile"@,
    }
}

impl ActionType {
    /// The name of the action in a request.
    pub fn name(&self) -> (r: &'static str)
        ensures
            r@ == action_name(*self),
    {
        match self {
            ActionType::AddNote => "addNote",
            ActionType::DeleteNotes => "deleteNotes",
            ActionType::UpdateNote => "updateNote",
            ActionType::NotesInfo => "notesInfo",
            ActionType::CreateDeck => "createDeck",
            ActionType::StoreMediaFile => "storeMediaFile",
        }
    }
}

/// The name of the field that holds a note's text.
pub open spec fn text_field() -> Seq<char> {
    "Text"@
}

/// The name of the field on the back of a note.
pub open spec fn back_field() -> Seq<char> {
    "Back Extra"@
}

/// The name of the note type for clozes.
pub open spec fn cloze_model() -> Seq<char> {
    "Cloze"@
}

/// A note as the store holds it: its identifier, its fields by name, and
/// its tags. Where a field's name stands twice, the first entry counts.
#[derive(Debug, PartialEq, Eq)]
pub struct UpdateNote {
    pub id: NoteId,
    pub fields: Vec<(String, String)>,
    pub tags: Vec<String>,
}

/// The value of the first field from index `i` on that is called `name`.
pub open spec fn field_from(fields: Seq<(String, String)>, name: Seq<char>, i: int) -> Option<
    Seq<char>,
>
    decreases fields.len() - i,
{
    if i < 0 || i >= fields.len() {
        None
    } else if fields[i].0@ == name {
        Some(fields[i].1@)
    } else {
        field_from(fields, name, i + 1)
    }
}

/// No name of a field stands twice.
pub open spec fn distinct_names(fields: Seq<(String, String)>) -> bool {
    forall|i: int, j: int|
        0 <= i < j < fields.len() ==> (#[trigger] fields[i]).0@ != (#[trigger] fields[j]).0@
}

/// Where no name stands twice, the value of a field is that of the one entry
/// with its name.
pub proof fn lemma_field_of_distinct(fields: Seq<(String, String)>, k: int)
    requires
        distinct_names(fields),
        0 <= k < fields.len(),
    ensures
        field_from(fields, fields[k].0@, 0) == Some(fields[k].1@),
{
    lemma_field_from(fields, k, 0);
}

/// A search from `i` on finds the entry at `k` if none before it has its
/// name.
pub proof fn lemma_field_from(fields: Seq<(String, String)>, k: int, i: int)
    requires
        distinct_names(fields),
        0 <= i <= k < fields.len(),
    ensures
        field_from(fields, fields[k].0@, i) == Some(fields[k].1@),
    decreases k - i,
{
    if i < k {
        lemma_field_from(fields, k, i + 1);
    }
}

impl UpdateNote {
    /// The fields of the note have each a name of its own.
    pub open spec fn wf(self) -> bool {
        distinct_names(self.fields@)
    }

    /// What a request with this note asks for.
    pub fn action_type() -> (r: ActionType)
        ensures
            r == ActionType::UpdateNote,
    {
        ActionType::UpdateNote
    }

    /// The value of the field called `name`.
    pub open spec fn field(self, name: Seq<char>) -> Option<Seq<char>> {
        field_from(self.fields@, name, 0)
    }

    /// The text of the note: the value of its field `Text`.
    pub open spec fn text(self) -> Option<Seq<char>> {
        self.field(text_field())
    }

    /// Whether the text of the note is `contents`.
    pub fn has_text(&self, contents: &String) -> (r: bool)
        ensures
            r == (self.text() == Some(contents@)),
    {
        let mut i: usize = 0;
        while i < self.fields.len()
            invariant
                i <= self.fields@.len(),
                self.text() == field_from(self.fields@, text_field(), i as int),
            decreases self.fields@.len() - i,
        {
            if same_str(self.fields[i].0.as_str(), "Text") {
                return self.fields[i].1 == *contents;
            }
            i += 1;
        }
        false
    }
}

/// A note of the store's snapshot, and whether a note of a file has been
/// matched with it in this run.
#[derive(Debug, PartialEq, Eq)]
pub struct KnownNote {
    pub note: UpdateNote,
    pub seen: bool,
}

/// A note as the store reports it.
#[derive(Debug, PartialEq, Eq)]
pub struct NotesInfoNote {
    pub note_id: NoteId,
    pub model_name: String,
    pub tags: Vec<String>,
    /// Each field's name and value.
    pub fields: Vec<(String, String)>,
}

/// The snapshot that a report of the store gives: its cloze notes, in
/// order, none of them seen.
pub open spec fn snapshot_of(reply: Seq<NotesInfoNote>) -> Seq<KnownNote>
    decreases reply.len(),
{
    if reply.len() == 0 {
        Seq::empty()
    } else {
        let last = reply.last();
        let before = snapshot_of(reply.drop_last());
        if last.model_name@ == cloze_model() {
            before.push(
                KnownNote {
                    note: UpdateNote { id: last.note_id, fields: last.fields, tags: last.tags },
                    seen: false,
                },
            )
        } else {
            before
        }
    }
}

/// Why the snapshot of known notes could not be made.
#[derive(Debug, PartialEq, Eq)]
pub enum InitializeNotesError {
    /// The store could not be asked for its notes.
    Request(RequestError),
    /// The snapshot could not be locked.
    Lock(String),
}

/// Makes the snapshot of known notes from the store's reply to the query
/// for the notes of a deck: the notes of the type `Cloze`, in order, none of
/// them seen. It fails if the query failed, with the query's error.
pub fn initialize_notes(reply: Result<Vec<NotesInfoNote>, RequestError>) -> (r: Result<
    Vec<KnownNote>,
    InitializeNotesError,
>)
    ensures
        match reply {
            Ok(notes) => r is Ok && r->Ok_0@ == snapshot_of(notes@),
            Err(e) => r == Err::<Vec<KnownNote>, InitializeNotesError>(
                InitializeNotesError::Request(e),
            ),
        },
{
    match reply {
        Ok(notes) => Ok(make_snapshot(notes)),
        Err(e) => Err(InitializeNotesError::Request(e)),
    }
}

fn make_snapshot(reply: Vec<NotesInfoNote>) -> (known: Vec<KnownNote>)
    ensures
        known@ == snapshot_of(reply@),
{
    let mut known: Vec<KnownNote> = Vec::new();
    let ghost all = reply@;
    let mut reversed: Vec<NotesInfoNote> = Vec::new();
    let mut reply = reply;
    while reply.len() > 0
        invariant
            reply@.len() + reversed@.len() == all.len(),
            forall|i: int| 0 <= i < reply@.len() ==> reply@[i] == all[i],
            forall|i: int|
                0 <= i < reversed@.len() ==> reversed@[i] == all[all.len() - 1 - i],
        decreases reply@.len(),
    {
        let note = reply.pop().unwrap();
        reversed.push(note);
    }
    assert(all.take(0) =~= Seq::<NotesInfoNote>::empty());
    while reversed.len() > 0
        invariant
            reversed@.len() <= all.len(),
            forall|i: int|
                0 <= i < reversed@.len() ==> reversed@[i] == all[all.len() - 1 - i],
            known@ == snapshot_of(all.take(all.len() - reversed@.len())),
        decreases reversed@.len(),
    {
        let ghost k = all.len() - reversed@.len();
        let note = reversed.pop().unwrap();
        proof {
            assert(note == all[k]);
            assert(all.take(k + 1).drop_last() =~= all.take(k));
            assert(all.take(k + 1).last() == note);
        }
        if same_str(note.model_name.as_str(), "Cloze") {
            known.push(
                KnownNote {
                    note: UpdateNote { id: note.note_id, fields: note.fields, tags: note.tags },
                    seen: false,
                },
            );
        }
    }
    assert(all.take(all.len() as int) =~= all);
    known
}

/// The query for the notes of a deck: `"deck:` and the deck's name, in
/// double quotes.
pub open spec fn deck_query(deck: Seq<char>) -> Seq<char> {
    seq!['"', 'd', 'e', 'c', 'k', ':'] + deck + seq!['"']
}

/// The query for the notes of a deck.
pub fn notes_query(deck: &str) -> (r: String)
    ensures
        r@ == deck_query(deck@),
{
    let mut r = String::new();
    r.push('"');
    r.push('d');
    r.push('e');
    r.push('c');
    r.push('k');
    r.push(':');
    r.append(deck);
    r.push('"');
    assert(r@ =~= deck_query(deck@));
    r
}

/// Two to the power `k`.
pub open spec fn pow2(k: nat) -> nat
    decreases k,
{
    if k == 0 {
        1
    } else {
        2 * pow2((k - 1) as nat)
    }
}

/// How long to wait, in milliseconds, before a request is tried again after
/// it failed for the time numbered `attempt`, from zero on: a tenth of a
/// second, doubled with each failure; or nothing, when the request has been
/// tried often enough and fails for good.
pub open spec fn backoff(attempt: u8) -> Option<u64> {
    if attempt < MAX_BACKOFF {
        Some((100 * pow2(attempt as nat)) as u64)
    } else {
        None
    }
}

/// How long to wait, in milliseconds, before a request is tried again after
/// it failed for the time numbered `attempt`, or nothing if it is not to be
/// tried again.
pub fn retry_delay(attempt: u8) -> (r: Option<u64>)
    ensures
        r == backoff(attempt),
{
    if attempt >= MAX_BACKOFF {
        return None;
    }
    let mut delay: u64 = 100;
    let mut i: u8 = 0;
    while i < attempt
        invariant
            i <= attempt < MAX_BACKOFF,
            delay == 100 * pow2(i as nat),
            delay <= 1600,
        decreases attempt - i,
    {
        proof {
            reveal_with_fuel(pow2, 6);
        }
        delay = delay * 2;
        i += 1;
    }
    Some(delay)
}

/// Each wait is twice the one before it, from a tenth of a second to one
/// second and six tenths; after that the request fails for good.
pub proof fn lemma_backoff_doubles(attempt: u8)
    ensures
        backoff(0) == Some(100u64),
        attempt + 1 < MAX_BACKOFF ==> backoff((attempt + 1) as u8)->Some_0 == 2 * backoff(
            attempt,
        )->Some_0,
        attempt < MAX_BACKOFF ==> backoff(attempt) is Some && backoff(attempt)->Some_0 <= 1600,
        attempt >= MAX_BACKOFF ==> backoff(attempt) is None,
{
    reveal_with_fuel(pow2, 6);
}

/// A status of success: from 200 up to 299.
pub open spec fn is_success(status: u16) -> bool {
    200 <= status < 300
}

/// What a reply of the store means. A status other than one of success is
/// an error. Else the reply holds a result or an error: a result alone is
/// the answer, an error alone is the store's error, and both or neither are
/// errors of their own.
pub fn interpret_response<T>(status: u16, result: Option<T>, error: Option<String>) -> (r: Result<
    T,
    RequestError,
>)
    ensures
        !is_success(status) ==> r == Err::<T, RequestError>(RequestError::ErrStatus(status)),
        is_success(status) ==> r == (match (result, error) {
            (Some(value), None) => Ok::<T, RequestError>(value),
            (None, Some(e)) => Err(RequestError::AnkiConnectError(e)),
            (Some(_), Some(e)) => Err(RequestError::ErrorAndResult { error: e }),
            (None, None) => Err(RequestError::ErrorNorResult),
        }),
{
    if status < 200 || status >= 300 {
        return Err(RequestError::ErrStatus(status));
    }
    match (result, error) {
        (Some(value), None) => Ok(value),
        (None, Some(e)) => Err(RequestError::AnkiConnectError(e)),
        (Some(_), Some(e)) => Err(RequestError::ErrorAndResult { error: e }),
        (None, None) => Err(RequestError::ErrorNorResult),
    }
}

/// What the reply to a request means that has nothing to answer, as an
/// update or a deletion: the store then sends neither a result nor an
/// error, which is success.
pub fn accept_empty_reply(reply: Result<(), RequestError>) -> (r: Result<(), RequestError>)
    ensures
        r == (match reply {
            Err(RequestError::ErrorNorResult) => Ok::<(), RequestError>(()),
            other => other,
        }),
{
    match reply {
        Err(RequestError::ErrorNorResult) => Ok(()),
        other => other,
    }
}

/// What the reply to the creation of a deck means: the deck exists if the
/// store answered with the deck's identifier.
pub fn ensure_deck_exists(reply: Result<u64, RequestError>) -> (r: Result<(), RequestError>)
    ensures
        r == (match reply {
            Ok(_) => Ok::<(), RequestError>(()),
            Err(e) => Err(e),
        }),
{
    match reply {
        Ok(_) => Ok(()),
        Err(e) => Err(e),
    }
}

/// Within what a new note must not be a duplicate.
#[derive(Clone, Copy, Debug, PartialEq, Eq)]
pub enum DuplicateScope {
    Deck,
}

/// How the store is to treat a new note that it holds already.
#[derive(Clone, Copy, Debug, PartialEq, Eq)]
pub struct Options {
    pub allow_duplicate: bool,
    pub duplicate_scope: DuplicateScope,
}

/// The request to add a note.
#[derive(Debug, PartialEq, Eq)]
pub struct AddNote {
    pub deck_name: String,
    pub model_name: String,
    pub fields: Vec<(String, String)>,
    pub options: Options,
    pub tags: Vec<String>,
    pub picture: Vec<Picture>,
}

impl AddNote {
    /// What a request with this note asks for.
    pub fn action_type() -> (r: ActionType)
        ensures
            r == ActionType::AddNote,
    {
        ActionType::AddNote
    }
}

/// The fields of a cloze note with the given text: the text, and an empty
/// back.
pub open spec fn cloze_fields(fields: Seq<(String, String)>, text: Seq<char>) -> bool {
    &&& fields.len() == 2
    &&& fields[0].0@ == text_field()
    &&& fields[0].1@ == text
    &&& fields[1].0@ == back_field()
    &&& fields[1].1@ == Seq::<char>::empty()
}

fn make_cloze_fields(text: String) -> (fields: Vec<(String, String)>)
    ensures
        cloze_fields(fields@, text@),
        distinct_names(fields@),
        fields@[0].1 == text,
{
    let mut fields: Vec<(String, String)> = Vec::new();
    fields.push((String::from_str("Text"), text));
    fields.push((String::from_str("Back Extra"), String::new()));
    proof {
        reveal_strlit("Text");
        reveal_strlit("Back Extra");
        assert("Text"@.len() != "Back Extra"@.len());
    }
    fields
}

/// The request that adds a cloze note with the given text, tags and
/// pictures to a deck. The store is to refuse a note that the deck holds
/// already.
pub fn add_cloze_note(text: String, tags: Vec<String>, pictures: Vec<Picture>, deck: &str) -> (r:
    AddNote)
    ensures
        r.deck_name@ == deck@,
        r.model_name@ == cloze_model(),
        cloze_fields(r.fields@, text@),
        distinct_names(r.fields@),
        r.options == (Options { allow_duplicate: false, duplicate_scope: DuplicateScope::Deck }),
        r.tags == tags,
        r.picture == pictures,
{
    AddNote {
        deck_name: String::from_str(deck),
        model_name: String::from_str("Cloze"),
        fields: make_cloze_fields(text),
        options: Options { allow_duplicate: false, duplicate_scope: DuplicateScope::Deck },
        tags,
        picture: pictures,
    }
}

/// The request to store a file of media.
#[derive(Debug, PartialEq, Eq)]
pub struct StorePicture {
    pub path: String,
    pub filename: String,
}

impl StorePicture {
    /// What a request with this file asks for.
    pub fn action_type() -> (r: ActionType)
        ensures
            r == ActionType::StoreMediaFile,
    {
        ActionType::StoreMediaFile
    }
}

/// What updating a note takes: the pictures are to be stored first, in
/// order, and the note is to be updated if all of them were.
#[derive(Debug, PartialEq, Eq)]
pub struct UpdateRequests {
    pub pictures: Vec<StorePicture>,
    pub note: UpdateNote,
}

/// The requests that update the note `id` to the given text and tags, and
/// store its pictures.
pub fn update_cloze_note(text: String, id: NoteId, tags: Vec<String>, pictures: Vec<Picture>) -> (r:
    UpdateRequests)
    ensures
        r.note.id == id,
        cloze_fields(r.note.fields@, text@),
        r.note.wf(),
        r.note.text() == Some(text@),
        r.note.tags == tags,
        r.pictures@.len() == pictures@.len(),
        forall|i: int|
            0 <= i < pictures@.len() ==> (#[trigger] r.pictures@[i]).path == pictures@[i].path
                && r.pictures@[i].filename == pictures@[i].filename,
{
    let mut store: Vec<StorePicture> = Vec::new();
    let mut i: usize = 0;
    while i < pictures.len()
        invariant
            i <= pictures@.len(),
            store@.len() == i,
            forall|k: int|
                0 <= k < i ==> (#[trigger] store@[k]).path == pictures@[k].path
                    && store@[k].filename == pictures@[k].filename,
        decreases pictures@.len() - i,
    {
        store.push(
            StorePicture {
                path: pictures[i].path.clone(),
                filename: pictures[i].filename.clone(),
            },
        );
        i += 1;
    }
    UpdateRequests {
        pictures: store,
        note: UpdateNote { id, fields: make_cloze_fields(text), tags },
    }
}

/// The identifiers of the notes of the snapshot that no note of a file was
/// matched with, in order.
pub open spec fn unseen_ids(known: Seq<KnownNote>) -> Seq<NoteId>
    decreases known.len(),
{
    if known.len() == 0 {
        Seq::empty()
    } else if known.last().seen {
        unseen_ids(known.drop_last())
    } else {
        unseen_ids(known.drop_last()).push(known.last().note.id)
    }
}

/// The notes that the store holds and no file holds any more: those of the
/// snapshot that were never matched. They are the ones to offer for
/// deletion at the end of a run.
pub fn unseen_notes(known: &Vec<KnownNote>) -> (r: Vec<NoteId>)
    ensures
        r@ == unseen_ids(known@),
{
    let mut r: Vec<NoteId> = Vec::new();
    let mut i: usize = 0;
    assert(known@.take(0) =~= Seq::<KnownNote>::empty());
    while i < known.len()
        invariant
            i <= known@.len(),
            r@ == unseen_ids(known@.take(i as int)),
        decreases known@.len() - i,
    {
        proof {
            assert(known@.take(i + 1).drop_last() =~= known@.take(i as int));
            assert(known@.take(i + 1).last() == known@[i as int]);
        }
        if !known[i].seen {
            r.push(known[i].note.id);
        }
        i += 1;
    }
    assert(known@.take(i as int) =~= known@);
    r
}

/// What `char::is_whitespace` says of a character: whether it is white
/// space, as Unicode defines it.
pub uninterp spec fn is_white_space(c: char) -> bool;

/// Calls `char::is_whitespace`. The contract gives the result a name: it
/// is a function of the character alone.
#[verifier::external_body]
fn white_space(c: char) -> (r: bool)
    ensures
        r == is_white_space(c),
{
    c.is_whitespace()
}

/// The first position at or after `i` of a character that is no white
/// space: the end of the line if there is none.
pub open spec fn trim_start(line: Seq<char>, i: int) -> int
    decreases line.len() - i,
{
    if i < 0 || i >= line.len() || !is_white_space(line[i]) {
        i
    } else {
        trim_start(line, i + 1)
    }
}

/// The position after the last character before `j` that is no white
/// space, not going below `from`.
pub open spec fn trim_end(line: Seq<char>, from: int, j: int) -> int
    decreases j,
{
    if j <= from || j > line.len() || j <= 0 || !is_white_space(line[j - 1]) {
        j
    } else {
        trim_end(line, from, j - 1)
    }
}

/// The line without the white space at its start and at its end.
pub open spec fn trimmed(line: Seq<char>) -> Seq<char> {
    let from = trim_start(line, 0);
    line.subrange(from, trim_end(line, from, line.len() as int))
}

/// The line without the white space at its start and at its end.
pub fn trim(line: &str) -> (r: String)
    ensures
        r@ == trimmed(line@),
{
    let chars = chars_of(line);
    let n = chars.len();
    let mut from: usize = 0;
    while from < n && white_space(chars[from])
        invariant
            from <= n == chars@.len(),
            chars@ == line@,
            trim_start(line@, 0) == trim_start(line@, from as int),
        decreases n - from,
    {
        from += 1;
    }
    let mut to: usize = n;
    while to > from && white_space(chars[to - 1])
        invariant
            from <= to <= n == chars@.len(),
            chars@ == line@,
            trim_end(line@, from as int, n as int) == trim_end(line@, from as int, to as int),
        decreases to,
    {
        to -= 1;
    }
    string_of(chars.as_slice(), from, to)
}

/// What the operator answered when asked whether to delete a note.
#[derive(Clone, Copy, Debug, PartialEq, Eq)]
pub enum Answer {
    Yes,
    No,
    /// Neither: the question is asked again.
    Unknown,
}

/// What an answer means, once the white space around it is gone.
pub open spec fn answer_of(word: Seq<char>) -> Answer {
    if word == "Y"@ || word == "y"@ || word == "Yes"@ || word == "yes"@ {
        Answer::Yes
    } else if word == "N"@ || word == "n"@ || word == "No"@ || word == "no"@ {
        Answer::No
    } else {
        Answer::Unknown
    }
}

/// What an answer means, once the white space around it is gone: `Y`, `y`,
/// `Yes` and `yes` say yes; `N`, `n`, `No` and `no` say no.
pub fn classify_answer(word: &str) -> (r: Answer)
    ensures
        r == answer_of(word@),
{
    if same_str(word, "Y") || same_str(word, "y") || same_str(word, "Yes") || same_str(
        word,
        "yes",
    ) {
        Answer::Yes
    } else if same_str(word, "N") || same_str(word, "n") || same_str(word, "No") || same_str(
        word,
        "no",
    ) {
        Answer::No
    } else {
        Answer::Unknown
    }
}

/// What the line that the operator typed means.
pub fn parse_answer(line: &str) -> (r: Answer)
    ensures
        r == answer_of(trimmed(line@)),
{
    classify_answer(trim(line).as_str())
}

/// Why the unseen notes could not be dealt with.
#[derive(Debug, PartialEq, Eq)]
pub enum UnseenNotesError {
    /// A note could not be deleted.
    Request(RequestError),
    /// The operator's answer could not be read.
    Stdin(String),
    /// The snapshot could not be locked.
    Lock(String),
}

/// What happened after the operator was asked whether to delete an unseen
/// note.
#[derive(Debug, PartialEq, Eq)]
pub enum UnseenEvent {
    /// The line that the operator typed, or why it could not be read.
    Line(Result<String, String>),
    /// The store's reply to the deletion of the note.
    Reply(Result<(), RequestError>),
}

/// What to do next about an unseen note.
#[derive(Clone, Copy, Debug, PartialEq, Eq)]
pub enum UnseenAction {
    /// Ask the store to delete the note.
    Delete,
    /// Go on to the next unseen note.
    Next,
    /// Say that the answer was not understood, and ask again.
    AskAgain,
}

/// What to do after an event, or the error that ends the run.
pub open spec fn unseen_step(event: UnseenEvent) -> Result<UnseenAction, UnseenNotesError> {
    match event {
        UnseenEvent::Line(Ok(line)) => match answer_of(trimmed(line@)) {
            Answer::Yes => Ok(UnseenAction::Delete),
            Answer::No => Ok(UnseenAction::Next),
            Answer::Unknown => Ok(UnseenAction::AskAgain),
        },
        UnseenEvent::Line(Err(cause)) => Err(UnseenNotesError::Stdin(cause)),
        UnseenEvent::Reply(Err(RequestError::ErrorNorResult)) => Ok(UnseenAction::Next),
        UnseenEvent::Reply(Ok(_)) => Ok(UnseenAction::Next),
        UnseenEvent::Reply(Err(e)) => Err(UnseenNotesError::Request(e)),
    }
}

/// Decides what to do about an unseen note after the operator answered or
/// the store replied. A yes has the note deleted, a no leaves it, anything
/// else has the question asked again. The store answers a deletion with
/// neither a result nor an error, which is success; any other error, and an
/// answer that could not be read, end the run.
pub fn handle_unseen_notes(event: UnseenEvent) -> (r: Result<UnseenAction, UnseenNotesError>)
    ensures
        r == unseen_step(event),
{
    match event {
        UnseenEvent::Line(Ok(line)) => match parse_answer(line.as_str()) {
            Answer::Yes => Ok(UnseenAction::Delete),
            Answer::No => Ok(UnseenAction::Next),
            Answer::Unknown => Ok(UnseenAction::AskAgain),
        },
        UnseenEvent::Line(Err(cause)) => Err(UnseenNotesError::Stdin(cause)),
        UnseenEvent::Reply(reply) => match accept_empty_reply(reply) {
            Ok(_) => Ok(UnseenAction::Next),
            Err(e) => Err(UnseenNotesError::Request(e)),
        },
    }
}

/// A request's error in words.
pub open spec fn request_error_text(e: RequestError) -> Seq<char> {
    match e {
        RequestError::AnkiConncectRequest(cause) => "AnkiConnect request failed: "@ + cause@,
        RequestError::Deserialisation(cause) => "Failed to deserialize response: "@ + cause@,
        RequestError::AnkiConnectError(error) => "AnkiConnect returned error: "@ + error@,
        RequestError::ErrorAndResult { error } => "AnkiConnect returned both an error ("@ + error@
            + ") and a result"@,
        RequestError::ErrorNorResult => "AnkiConnect returned neither an error nor a result"@,
        RequestError::ErrStatus(status) =>
            "AnkiConnect request returned an erroneous status code: "@ + decimal(status as nat),
    }
}

impl RequestError {
    /// The error in words.
    pub fn message(&self) -> (r: String)
        ensures
            r@ == request_error_text(*self),
    {
        match self {
            RequestError::AnkiConncectRequest(cause) => {
                let mut r = String::from_str("AnkiConnect request failed: ");
                r.append(cause.as_str());
                r
            },
            RequestError::Deserialisation(cause) => {
                let mut r = String::from_str("Failed to deserialize response: ");
                r.append(cause.as_str());
                r
            },
            RequestError::AnkiConnectError(error) => {
                let mut r = String::from_str("AnkiConnect returned error: ");
                r.append(error.as_str());
                r
            },
            RequestError::ErrorAndResult { error } => {
                let mut r = String::from_str("AnkiConnect returned both an error (");
                r.append(error.as_str());
                r.append(") and a result");
                r
            },
            RequestError::ErrorNorResult => String::from_str(
                "AnkiConnect returned neither an error nor a result",
            ),
            RequestError::ErrStatus(status) => {
                let mut digits: Vec<char> = Vec::new();
                push_decimal(&mut digits, *status as u64);
                assert(digits@ =~= decimal(*status as nat));
                let mut r = String::from_str(
                    "AnkiConnect request returned an erroneous status code: ",
                );
                r.append(string_from(&digits).as_str());
                r
            },
        }
    }
}

impl InitializeNotesError {
    /// The error in words.
    pub open spec fn message_text(self) -> Seq<char> {
        match self {
            InitializeNotesError::Request(e) => "Failed to request notes: "@ + request_error_text(
                e,
            ),
            InitializeNotesError::Lock(cause) => "Failed to lock NOTES: "@ + cause@,
        }
    }

    /// The error in words.
    pub fn message(&self) -> (r: String)
        ensures
            r@ == self.message_text(),
    {
        match self {
            InitializeNotesError::Request(e) => {
                let mut r = String::from_str("Failed to request notes: ");
                r.append(e.message().as_str());
                r
            },
            InitializeNotesError::Lock(cause) => {
                let mut r = String::from_str("Failed to lock NOTES: ");
                r.append(cause.as_str());
                r
            },
        }
    }
}

impl UnseenNotesError {
    /// The error in words.
    pub open spec fn message_text(self) -> Seq<char> {
        match self {
            UnseenNotesError::Request(e) => "Failed to delete note: "@ + request_error_text(e),
            UnseenNotesError::Stdin(cause) => "Reading from stdin failed: "@ + cause@,
            UnseenNotesError::Lock(cause) => "Failed to lock NOTES: "@ + cause@,
        }
    }

    /// The error in words.
    pub fn message(&self) -> (r: String)
        ensures
            r@ == self.message_text(),
    {
        match self {
            UnseenNotesError::Request(e) => {
                let mut r = String::from_str("Failed to delete note: ");
                r.append(e.message().as_str());
                r
            },
            UnseenNotesError::Stdin(cause) => {
                let mut r = String::from_str("Reading from stdin failed: ");
                r.append(cause.as_str());
                r
            },
            UnseenNotesError::Lock(cause) => {
                let mut r = String::from_str("Failed to lock NOTES: ");
                r.append(cause.as_str());
                r
            },
        }
    }
}

} // verus!

use anksidian::cloze::ClozeData;
use anksidian::pipeline::{handle_md, mark_notes_as_seen, rewrite};
use anksidian::reconcile::{
    create_outcome, find_match, splice, update_outcome, Match, MatchedBy, Outcome, Resolution,
};
use anksidian::render::Answers;
use anksidian::store::{unseen_notes, KnownNote, NoteId, RequestError, UpdateNote};

fn known(id: u64, text: &str) -> KnownNote {
    KnownNote {
        note: UpdateNote {
            id: NoteId(id),
            fields: vec![
                ("Text".to_string(), text.to_string()),
                ("Back Extra".to_string(), String::new()),
            ],
            tags: vec![],
        },
        seen: false,
    }
}

fn note(id: Option<u64>, contents: &str) -> ClozeData {
    ClozeData {
        contents: contents.to_string(),
        note_id: id.map(NoteId),
        pictures: vec![],
        remaining_length: 0,
    }
}

fn read(text: &str) -> Vec<ClozeData> {
    handle_md(text, &vec![".".to_string(), "n.md".to_string()], &Answers::new()).unwrap().clozes
}

#[test]
fn a_new_note_gets_its_comment_after_its_block() {
    let text = "A\n==B==\n";
    let notes = read(text);
    assert_eq!(notes.len(), 1);
    assert_eq!(notes[0].contents, "{{c1::B}}<br>n");
    let mut snapshot: Vec<KnownNote> = vec![];
    assert_eq!(find_match(&notes[0], &mut snapshot), None);
    let outcome = create_outcome(&Ok(NoteId(42)));
    assert_eq!(outcome, Outcome::Created(NoteId(42)));
    let out = rewrite(text, &notes, &vec![outcome]).unwrap();
    assert_eq!(out, "A\n==B==\n<!--NoteID:42-->\n");
    assert!(out.starts_with("A\n"));
}

#[test]
fn a_second_run_changes_nothing() {
    let first = "# H\n==a== x\ntext\n==b==\n";
    let notes = read(first);
    let outcomes =
        vec![Outcome::Created(NoteId(1700000000001)), Outcome::Created(NoteId(1700000000002))];
    let second = rewrite(first, &notes, &outcomes).unwrap();
    assert_eq!(
        second,
        "# H\n==a== x\n<!--NoteID:1700000000001-->\ntext\n==b==\n<!--NoteID:1700000000002-->\n"
    );
    let mut snapshot = vec![
        known(1700000000002, &notes[1].contents),
        known(1700000000001, &notes[0].contents),
    ];
    let again = read(&second);
    assert_eq!(again.len(), 2);
    let mut outcomes = Vec::new();
    for cloze in &again {
        let m = find_match(cloze, &mut snapshot).unwrap();
        assert_eq!(Some(m.id), cloze.note_id);
        assert_eq!(m.by, MatchedBy::Id);
        outcomes.push(update_outcome(m.id, &Ok(())));
    }
    assert_eq!(rewrite(&second, &again, &outcomes).unwrap(), second);
    assert!(unseen_notes(&snapshot).is_empty());
}

#[test]
fn a_failed_note_leaves_the_file_as_it_is() {
    let text = "==a==\n==b==\n<!--NoteID:1700000000002-->\n";
    let notes = read(text);
    let failed: Result<NoteId, RequestError> = Err(RequestError::ErrorNorResult);
    let refused: Result<(), RequestError> = Err(RequestError::AnkiConnectError("no".to_string()));
    let outcomes = vec![create_outcome(&failed), update_outcome(NoteId(1700000000002), &refused)];
    assert_eq!(outcomes, vec![Outcome::Failed, Outcome::Failed]);
    assert_eq!(rewrite(text, &notes, &outcomes).unwrap(), text);
}

#[test]
fn an_identifier_that_changed_is_replaced_in_its_comment() {
    let text = "==a== 1700000000001\n<!--NoteID:1700000000001-->\nend 1700000000001";
    let notes = read(text);
    assert_eq!(notes[0].note_id, Some(NoteId(1700000000001)));
    let out = rewrite(text, &notes, &vec![Outcome::Updated(NoteId(1800000000009))]).unwrap();
    assert_eq!(out, "==a== 1700000000001\n<!--NoteID:1800000000009-->\nend 1700000000001");
}

#[test]
fn an_identifier_with_leading_zeros_keeps_them() {
    let text = "==a==\n<!--NoteID:0000000042-->";
    let notes = read(text);
    let out = rewrite(text, &notes, &vec![Outcome::Created(NoteId(7))]).unwrap();
    assert_eq!(out, "==a==\n<!--NoteID:000000007-->");
}

#[test]
fn splice_leaves_what_it_cannot_find() {
    let r =
        Resolution { remaining_length: 0, prior_id: Some(NoteId(5)), final_id: Some(NoteId(6)) };
    assert_eq!(splice("no digits", &vec![r]), "no digits");
    assert_eq!(splice("a5b5c", &vec![r]), "a5b6c");
    assert_eq!(splice("", &vec![]), "");
}

#[test]
fn splice_copies_the_text_between_the_notes() {
    let rs = vec![
        Resolution { remaining_length: 6, prior_id: None, final_id: Some(NoteId(1)) },
        Resolution { remaining_length: 6, prior_id: None, final_id: None },
        Resolution { remaining_length: 2, prior_id: None, final_id: Some(NoteId(20)) },
    ];
    assert_eq!(splice("abcdéfgh", &rs), "ab\n<!--NoteID:1-->cdéf\n<!--NoteID:20-->gh");
}

#[test]
fn rewrite_refuses_what_does_not_fit() {
    let text = "==a==\n==b==";
    let notes = read(text);
    assert_eq!(rewrite(text, &notes, &vec![Outcome::Failed]), None);
    assert_eq!(rewrite("short", &notes, &vec![Outcome::Failed, Outcome::Failed]), None);
    let swapped = vec![note(None, "x"), ClozeData { remaining_length: 3, ..note(None, "y") }];
    assert_eq!(rewrite(text, &swapped, &vec![Outcome::Failed, Outcome::Failed]), None);
    assert_eq!(
        rewrite(text, &notes, &vec![Outcome::Failed, Outcome::Failed]),
        Some(text.to_string())
    );
}

#[test]
fn a_match_by_identifier_comes_before_a_match_by_text() {
    let mut snapshot = vec![known(2, "same"), known(1, "other"), known(1, "late")];
    let m = find_match(&note(Some(1), "same"), &mut snapshot);
    assert_eq!(m, Some(Match { id: NoteId(1), by: MatchedBy::Id, conflict: true }));
    assert_eq!(
        snapshot.iter().map(|k| k.seen).collect::<Vec<_>>(),
        vec![false, true, false]
    );
}

#[test]
fn a_match_by_identifier_without_a_rival_is_no_conflict() {
    let mut snapshot = vec![known(1, "same"), known(2, "other")];
    let m = find_match(&note(Some(1), "same"), &mut snapshot);
    assert_eq!(m, Some(Match { id: NoteId(1), by: MatchedBy::Id, conflict: false }));
}

#[test]
fn without_a_known_identifier_the_first_note_with_the_text_is_taken() {
    let mut snapshot = vec![known(1, "a"), known(2, "same"), known(3, "same")];
    let m = find_match(&note(Some(9), "same"), &mut snapshot);
    assert_eq!(m, Some(Match { id: NoteId(2), by: MatchedBy::Content, conflict: false }));
    let m = find_match(&note(None, "a"), &mut snapshot);
    assert_eq!(m, Some(Match { id: NoteId(1), by: MatchedBy::Content, conflict: false }));
    assert_eq!(find_match(&note(None, "b"), &mut snapshot), None);
    assert_eq!(unseen_notes(&snapshot), vec![NoteId(3)]);
}

#[test]
fn a_note_without_a_text_field_is_matched_by_identifier_only() {
    let bare = KnownNote {
        note: UpdateNote {
            id: NoteId(4),
            fields: vec![("Front".to_string(), "x".to_string())],
            tags: vec![],
        },
        seen: false,
    };
    let mut snapshot = vec![bare];
    assert_eq!(find_match(&note(None, "x"), &mut snapshot), None);
    assert_eq!(find_match(&note(None, ""), &mut snapshot), None);
    assert!(find_match(&note(Some(4), "x"), &mut snapshot).is_some());
}

#[test]
fn a_known_note_that_is_never_matched_is_offered_for_deletion() {
    let mut snapshot = vec![known(1, "a"), known(2, "b"), known(3, "c")];
    mark_notes_as_seen(&vec![note(Some(3), "x"), note(None, "a"), note(None, "z")], &mut snapshot);
    assert_eq!(unseen_notes(&snapshot), vec![NoteId(2)]);
    assert!(!snapshot[1].seen);
}

#[test]
fn outcomes_give_the_final_identifier() {
    assert_eq!(Outcome::Updated(NoteId(1)).final_id(), Some(NoteId(1)));
    assert_eq!(Outcome::Created(NoteId(2)).final_id(), Some(NoteId(2)));
    assert_eq!(Outcome::Failed.final_id(), None);
    let cloze = ClozeData { remaining_length: 7, ..note(Some(5), "c") };
    assert_eq!(
        Resolution::new(&cloze, Outcome::Updated(NoteId(6))),
        Resolution { remaining_length: 7, prior_id: Some(NoteId(5)), final_id: Some(NoteId(6)) }
    );
}

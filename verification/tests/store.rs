use anksidian::config::{first_hit, is_ignored, lookup_deck, Config, PathToDeck};
use anksidian::error::HandleMdError;
use anksidian::render::Picture;
use anksidian::reconcile::{duplicate_outcome, Outcome};
use anksidian::store::{
    accept_empty_reply, add_cloze_note, classify_answer, ensure_deck_exists,
    handle_unseen_notes, initialize_notes, interpret_response, notes_query, parse_answer,
    retry_delay, trim, update_cloze_note, ActionType, Answer, DuplicateScope,
    InitializeNotesError, KnownNote, NoteId, NotesInfoNote, Options, RequestError, StorePicture,
    UnseenAction, UnseenEvent, UnseenNotesError, UpdateNote, MAX_BACKOFF, PROTOCOL_VERSION,
};
use anksidian::traverse::{
    entry_action, file_action, has_flag, note_name, offers_deletion, EntryAction, EntryKind,
    FileAction,
};
use anksidian::text::{chars_of, find_last, number_of, push_braces_parted, push_decimal, string_of};

#[test]
fn test_default_config() {
    let config = Config::default();
    assert_eq!(config.path_to_deck.len(), 1);
    assert_eq!(lookup_deck(&config, "./any/note.md"), Ok(&"Obsidian".to_string()));
    assert!(is_ignored(&config, "/home/me/vault/Excalidraw"));
    assert!(!is_ignored(&config, "/home/me/vault/notes"));
    assert!(!config.disable_typst);
}

#[test]
fn the_first_mapping_that_matches_gives_the_deck() {
    let config = Config {
        path_to_deck: vec![
            PathToDeck { path: "(".to_string(), deck: "broken".to_string() },
            PathToDeck { path: "^a/.*\\.md$".to_string(), deck: "A".to_string() },
            PathToDeck { path: "a".to_string(), deck: "late".to_string() },
            PathToDeck { path: "^b/".to_string(), deck: "B".to_string() },
        ],
        ignore_paths: vec!["(".to_string(), "^b/skip$".to_string()],
        disable_typst: true,
    };
    assert_eq!(lookup_deck(&config, "a/x.md"), Ok(&"A".to_string()));
    assert_eq!(lookup_deck(&config, "xa"), Ok(&"late".to_string()));
    assert_eq!(lookup_deck(&config, "b/x.md"), Ok(&"B".to_string()));
    assert_eq!(
        lookup_deck(&config, "c/x.md"),
        Err(HandleMdError::DeckLookup("c/x.md".to_string()))
    );
    assert_eq!(lookup_deck(&config, "^b/"), Err(HandleMdError::DeckLookup("^b/".to_string())));
    assert!(is_ignored(&config, "b/skip"));
    assert!(!is_ignored(&config, "b/skipped"));
    assert!(!is_ignored(&config, "("));
}

#[test]
fn first_hit_is_the_first_search_that_matched() {
    assert_eq!(first_hit(&vec![]), None);
    assert_eq!(first_hit(&vec![None, Some(false)]), None);
    assert_eq!(first_hit(&vec![None, Some(false), Some(true), Some(true)]), Some(2));
}

#[test]
fn a_request_is_tried_again_five_times_with_doubled_waits() {
    assert_eq!(MAX_BACKOFF, 5);
    assert_eq!(retry_delay(0), Some(100));
    assert_eq!(retry_delay(1), Some(200));
    assert_eq!(retry_delay(2), Some(400));
    assert_eq!(retry_delay(3), Some(800));
    assert_eq!(retry_delay(4), Some(1600));
    assert_eq!(retry_delay(5), None);
    assert_eq!(retry_delay(255), None);
}

#[test]
fn a_reply_holds_a_result_or_an_error() {
    assert_eq!(PROTOCOL_VERSION, 6);
    assert_eq!(interpret_response(200, Some(7u64), None), Ok(7));
    assert_eq!(
        interpret_response::<u64>(200, None, Some("bad".to_string())),
        Err(RequestError::AnkiConnectError("bad".to_string()))
    );
    assert_eq!(
        interpret_response(299, Some(7u64), Some("bad".to_string())),
        Err(RequestError::ErrorAndResult { error: "bad".to_string() })
    );
    assert_eq!(interpret_response::<u64>(204, None, None), Err(RequestError::ErrorNorResult));
    assert_eq!(interpret_response(199, Some(7u64), None), Err(RequestError::ErrStatus(199)));
    assert_eq!(interpret_response(300, Some(7u64), None), Err(RequestError::ErrStatus(300)));
    assert_eq!(
        interpret_response::<u64>(500, None, Some("x".to_string())),
        Err(RequestError::ErrStatus(500))
    );
}

#[test]
fn an_empty_reply_to_an_update_is_success() {
    assert_eq!(accept_empty_reply(Err(RequestError::ErrorNorResult)), Ok(()));
    assert_eq!(accept_empty_reply(Ok(())), Ok(()));
    assert_eq!(
        accept_empty_reply(Err(RequestError::ErrStatus(500))),
        Err(RequestError::ErrStatus(500))
    );
    assert_eq!(
        accept_empty_reply(Err(RequestError::AnkiConncectRequest("down".to_string()))),
        Err(RequestError::AnkiConncectRequest("down".to_string()))
    );
    assert_eq!(
        accept_empty_reply(Err(RequestError::Deserialisation("eof".to_string()))),
        Err(RequestError::Deserialisation("eof".to_string()))
    );
}

#[test]
fn a_deck_exists_if_the_store_names_it() {
    assert_eq!(ensure_deck_exists(Ok(1519323742721)), Ok(()));
    assert_eq!(
        ensure_deck_exists(Err(RequestError::ErrorNorResult)),
        Err(RequestError::ErrorNorResult)
    );
}

#[test]
fn actions_have_their_names() {
    assert_eq!(ActionType::AddNote.name(), "addNote");
    assert_eq!(ActionType::DeleteNotes.name(), "deleteNotes");
    assert_eq!(ActionType::UpdateNote.name(), "updateNote");
    assert_eq!(ActionType::NotesInfo.name(), "notesInfo");
    assert_eq!(ActionType::CreateDeck.name(), "createDeck");
    assert_eq!(ActionType::StoreMediaFile.name(), "storeMediaFile");
}

#[test]
fn the_snapshot_holds_the_cloze_notes_in_order() {
    let reported = |id: u64, model: &str| NotesInfoNote {
        note_id: NoteId(id),
        model_name: model.to_string(),
        tags: vec![format!("t{id}")],
        fields: vec![("Text".to_string(), format!("text {id}"))],
    };
    let known = initialize_notes(Ok(vec![
        reported(1, "Cloze"),
        reported(2, "Basic"),
        reported(3, "Cloze"),
        reported(4, "cloze"),
    ]));
    let expected = |id: u64| KnownNote {
        note: UpdateNote {
            id: NoteId(id),
            fields: vec![("Text".to_string(), format!("text {id}"))],
            tags: vec![format!("t{id}")],
        },
        seen: false,
    };
    assert_eq!(known, Ok(vec![expected(1), expected(3)]));
    assert_eq!(initialize_notes(Ok(vec![])), Ok(vec![]));
    assert_eq!(
        initialize_notes(Err(RequestError::ErrStatus(502))),
        Err(InitializeNotesError::Request(RequestError::ErrStatus(502)))
    );
}

#[test]
fn the_query_names_the_deck_in_quotes() {
    assert_eq!(notes_query("My Deck"), "\"deck:My Deck\"");
}

#[test]
fn a_known_note_is_compared_by_its_text_field() {
    let note = UpdateNote {
        id: NoteId(1),
        fields: vec![
            ("Back Extra".to_string(), "b".to_string()),
            ("Text".to_string(), "t".to_string()),
            ("Text".to_string(), "later".to_string()),
        ],
        tags: vec![],
    };
    assert!(note.has_text(&"t".to_string()));
    assert!(!note.has_text(&"later".to_string()));
    assert!(!note.has_text(&"b".to_string()));
}

#[test]
fn a_new_note_is_a_cloze_that_must_be_no_duplicate() {
    let picture = Picture::new("/p.png".to_string(), "p.png".to_string());
    let request = add_cloze_note(
        "{{c1::a}}".to_string(),
        vec!["#t".to_string()],
        vec![picture.duplicate()],
        "Deck",
    );
    assert_eq!(request.deck_name, "Deck");
    assert_eq!(request.model_name, "Cloze");
    assert_eq!(
        request.fields,
        vec![
            ("Text".to_string(), "{{c1::a}}".to_string()),
            ("Back Extra".to_string(), String::new()),
        ]
    );
    assert_eq!(
        request.options,
        Options { allow_duplicate: false, duplicate_scope: DuplicateScope::Deck }
    );
    assert_eq!(request.tags, vec!["#t".to_string()]);
    assert_eq!(request.picture, vec![picture]);
}

#[test]
fn an_update_stores_the_pictures_first() {
    let pictures = vec![
        Picture::new("/p.png".to_string(), "p.png".to_string()),
        Picture::new("/q.jpg".to_string(), "q.jpg".to_string()),
    ];
    let requests =
        update_cloze_note("text".to_string(), NoteId(9), vec!["#t".to_string()], pictures);
    assert_eq!(
        requests.pictures,
        vec![
            StorePicture { path: "/p.png".to_string(), filename: "p.png".to_string() },
            StorePicture { path: "/q.jpg".to_string(), filename: "q.jpg".to_string() },
        ]
    );
    assert_eq!(
        requests.note,
        UpdateNote {
            id: NoteId(9),
            fields: vec![
                ("Text".to_string(), "text".to_string()),
                ("Back Extra".to_string(), String::new()),
            ],
            tags: vec!["#t".to_string()],
        }
    );
}

#[test]
fn numbers_are_written_and_read_in_decimal() {
    for n in [0u64, 7, 10, 42, 1700000000000, u64::MAX] {
        let mut out = vec!['x'];
        push_decimal(&mut out, n);
        assert_eq!(out.iter().collect::<String>(), format!("x{n}"));
    }
    assert_eq!(number_of(&chars_of("0000000042")), 42);
    assert_eq!(number_of(&chars_of("1700000000000")), 1700000000000);
    assert_eq!(number_of(&chars_of("9999999999999999999")), 9999999999999999999);
    assert_eq!(number_of(&[]), 0);
}

#[test]
fn text_is_searched_from_the_end() {
    let hay = chars_of("abcabc");
    assert_eq!(find_last(&hay, &chars_of("bc")), Some(4));
    assert_eq!(find_last(&hay, &chars_of("ab")), Some(3));
    assert_eq!(find_last(&hay, &chars_of("abcabc")), Some(0));
    assert_eq!(find_last(&hay, &chars_of("abcabcd")), None);
    assert_eq!(find_last(&hay, &chars_of("x")), None);
    assert_eq!(find_last(&hay, &[]), Some(6));
    assert_eq!(string_of(&hay, 1, 4), "bca");
}

#[test]
fn pairs_of_braces_are_parted_from_the_left() {
    let parted = |text: &str| {
        let mut out = Vec::new();
        push_braces_parted(&mut out, &chars_of(text));
        out.iter().collect::<String>()
    };
    assert_eq!(parted("}}"), "} }");
    assert_eq!(parted("}}}"), "} }}");
    assert_eq!(parted("}}}}"), "} }} }");
    assert_eq!(parted("a}b}}c"), "a}b} }c");
    assert_eq!(parted(""), "");
}

#[test]
fn white_space_is_trimmed_at_both_ends() {
    assert_eq!(trim("\t a b \r\n"), "a b");
    assert_eq!(trim("   "), "");
    assert_eq!(trim(""), "");
    assert_eq!(trim("x"), "x");
    assert_eq!(trim("\u{a0}x\u{3000}\u{2028}"), "x");
    assert_eq!(trim("\u{200b}x"), "\u{200b}x");
}

#[test]
fn an_answer_is_yes_no_or_neither() {
    for word in ["Y", "y", "Yes", "yes"] {
        assert_eq!(classify_answer(word), Answer::Yes);
    }
    for word in ["N", "n", "No", "no"] {
        assert_eq!(classify_answer(word), Answer::No);
    }
    for word in ["", "YES", "NO", "yes ", "ye", "yess", "maybe", "nope"] {
        assert_eq!(classify_answer(word), Answer::Unknown);
    }
    assert_eq!(parse_answer("y\n"), Answer::Yes);
    assert_eq!(parse_answer("  No \r\n"), Answer::No);
    assert_eq!(parse_answer("y e s\n"), Answer::Unknown);
    assert_eq!(parse_answer("\n"), Answer::Unknown);
}

#[test]
fn an_unseen_note_is_deleted_on_a_yes() {
    let line = |text: &str| UnseenEvent::Line(Ok(text.to_string()));
    assert_eq!(handle_unseen_notes(line("yes\n")), Ok(UnseenAction::Delete));
    assert_eq!(handle_unseen_notes(line("n\n")), Ok(UnseenAction::Next));
    assert_eq!(handle_unseen_notes(line("what\n")), Ok(UnseenAction::AskAgain));
    assert_eq!(
        handle_unseen_notes(UnseenEvent::Line(Err("closed".to_string()))),
        Err(UnseenNotesError::Stdin("closed".to_string()))
    );
    assert_eq!(handle_unseen_notes(UnseenEvent::Reply(Ok(()))), Ok(UnseenAction::Next));
    assert_eq!(
        handle_unseen_notes(UnseenEvent::Reply(Err(RequestError::ErrorNorResult))),
        Ok(UnseenAction::Next)
    );
    assert_eq!(
        handle_unseen_notes(UnseenEvent::Reply(Err(RequestError::ErrStatus(500)))),
        Err(UnseenNotesError::Request(RequestError::ErrStatus(500)))
    );
}

#[test]
fn request_errors_say_what_failed() {
    assert_eq!(
        RequestError::AnkiConncectRequest("refused".to_string()).message(),
        "AnkiConnect request failed: refused"
    );
    assert_eq!(
        RequestError::Deserialisation("eof".to_string()).message(),
        "Failed to deserialize response: eof"
    );
    assert_eq!(
        RequestError::AnkiConnectError("deck missing".to_string()).message(),
        "AnkiConnect returned error: deck missing"
    );
    assert_eq!(
        RequestError::ErrorAndResult { error: "e".to_string() }.message(),
        "AnkiConnect returned both an error (e) and a result"
    );
    assert_eq!(
        RequestError::ErrorNorResult.message(),
        "AnkiConnect returned neither an error nor a result"
    );
    assert_eq!(
        RequestError::ErrStatus(404).message(),
        "AnkiConnect request returned an erroneous status code: 404"
    );
    assert_eq!(
        InitializeNotesError::Request(RequestError::ErrorNorResult).message(),
        "Failed to request notes: AnkiConnect returned neither an error nor a result"
    );
    assert_eq!(InitializeNotesError::Lock("p".to_string()).message(), "Failed to lock NOTES: p");
    assert_eq!(
        UnseenNotesError::Request(RequestError::ErrStatus(500)).message(),
        "Failed to delete note: AnkiConnect request returned an erroneous status code: 500"
    );
    assert_eq!(UnseenNotesError::Stdin("s".to_string()).message(), "Reading from stdin failed: s");
    assert_eq!(UnseenNotesError::Lock("p".to_string()).message(), "Failed to lock NOTES: p");
}

#[test]
fn a_duplicate_is_the_first_note_that_was_found() {
    assert_eq!(duplicate_outcome(&Ok(vec![NoteId(3), NoteId(1)])), Outcome::Updated(NoteId(3)));
    assert_eq!(duplicate_outcome(&Ok(vec![])), Outcome::Failed);
    assert_eq!(duplicate_outcome(&Err(RequestError::ErrorNorResult)), Outcome::Failed);
}

#[test]
fn note_files_are_known_by_their_name() {
    for name in ["a.md", "a.b.md", "..md", "é.md"] {
        assert!(note_name(name));
    }
    for name in ["", "md", ".md", "a.MD", "a.md.txt", "a.mdx", "a.", "amd"] {
        assert!(!note_name(name));
    }
}

#[test]
fn a_run_goes_through_directories_and_takes_note_files() {
    let config = Config::default();
    let action = |kind, path, name| entry_action(&config, kind, path, name);
    assert_eq!(action(EntryKind::Directory, "/v/notes", "notes"), EntryAction::Recurse);
    assert_eq!(action(EntryKind::Directory, "/v/Excalidraw", "Excalidraw"), EntryAction::Skip);
    assert_eq!(action(EntryKind::File, "/v/Excalidraw.md", "Excalidraw.md"), EntryAction::Note);
    assert_eq!(action(EntryKind::File, "/v/a.txt", "a.txt"), EntryAction::Skip);
    assert_eq!(action(EntryKind::Other, "/v/a.md", "a.md"), EntryAction::Skip);
}

#[test]
fn a_file_is_handled_unless_the_cache_holds_its_hash() {
    let old = vec![1u8, 2, 3];
    let new = vec![1u8, 2, 4];
    assert_eq!(file_action(false, Some(&old), &old, true), FileAction::Handle);
    assert_eq!(file_action(false, None, &old, false), FileAction::Handle);
    assert_eq!(file_action(true, None, &old, true), FileAction::HandleAndRemember);
    assert_eq!(file_action(true, Some(&old), &new, false), FileAction::HandleAndRemember);
    assert_eq!(file_action(true, Some(&old), &vec![1u8, 2], false), FileAction::HandleAndRemember);
    assert_eq!(file_action(true, Some(&old), &old, true), FileAction::MarkSeen);
    assert_eq!(file_action(true, Some(&old), &old, false), FileAction::Skip);
}

#[test]
fn unseen_notes_are_offered_when_every_file_was_looked_at() {
    assert!(offers_deletion(false, false));
    assert!(offers_deletion(false, true));
    assert!(offers_deletion(true, true));
    assert!(!offers_deletion(true, false));
}

#[test]
fn flags_are_looked_for_after_the_first_two_arguments() {
    let args = |items: &[&str]| items.iter().map(|s| s.to_string()).collect::<Vec<_>>();
    assert!(has_flag(&args(&["prog", "dir", "--no-cache"]), "--no-cache"));
    assert!(has_flag(&args(&["prog", "dir", "x", "--track-seen"]), "--track-seen"));
    assert!(!has_flag(&args(&["prog", "--no-cache"]), "--no-cache"));
    assert!(!has_flag(&args(&["--no-cache", "--no-cache"]), "--no-cache"));
    assert!(!has_flag(&args(&["prog", "dir", "--no-cach"]), "--no-cache"));
    assert!(!has_flag(&args(&[]), "--no-cache"));
}

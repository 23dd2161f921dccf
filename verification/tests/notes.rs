use anksidian::cloze::{handle_cloze_lines, ClozeData};
use anksidian::collect::{collect, queries, Query};
use anksidian::document::{Code, Element, FileElement, Heading, Link, Math};
use anksidian::error::{HandleMdError, IsTypstError, MathConvertError, TypstToLatexError};
use anksidian::headings::{apply_heading, document_path, handle_heading};
use anksidian::parser::parse;
use anksidian::pipeline::handle_md;
use anksidian::render::{
    code_to_string, convert_math, element_to_string, image_kind, link_to_string,
    maybe_handle_image, Answers, ImageKind, MathAnswer, Picture,
};
use anksidian::store::NoteId;

fn strings(items: &[&str]) -> Vec<String> {
    items.iter().map(|s| s.to_string()).collect()
}

fn notes_of(text: &str, path: &[&str]) -> Vec<ClozeData> {
    handle_md(text, &strings(path), &Answers::new()).unwrap().clozes
}

#[test]
fn cloze_numbering_starts_anew_in_every_block() {
    let notes = notes_of("==a== ==b==\n\n==c== ==d==\n", &[".", "n.md"]);
    assert_eq!(notes.len(), 2);
    assert_eq!(notes[0].contents, "{{c1::a}} {{c2::b}}<br>n");
    assert_eq!(notes[1].contents, "{{c1::c}} {{c2::d}}<br>n");
}

#[test]
fn clozes_are_numbered_past_nine() {
    let text = "==a== ==b== ==c== ==d== ==e== ==f== ==g== ==h== ==i== ==j== ==k==";
    let notes = notes_of(text, &[".", "n.md"]);
    assert!(notes[0].contents.contains("{{c9::i}} {{c10::j}} {{c11::k}}<br>"));
}

#[test]
fn heading_stack_keeps_a_slot_per_level() {
    let mut stack: Vec<String> = Vec::new();
    apply_heading(&mut stack, 1, "A".to_string());
    assert_eq!(stack, strings(&["A"]));
    apply_heading(&mut stack, 3, "B".to_string());
    assert_eq!(stack, strings(&["A", "", "B"]));
    apply_heading(&mut stack, 2, "C".to_string());
    assert_eq!(stack, strings(&["A", "C"]));
    apply_heading(&mut stack, 2, "D".to_string());
    assert_eq!(stack, strings(&["A", "D"]));
    apply_heading(&mut stack, 1, "E".to_string());
    assert_eq!(stack, strings(&["E"]));
}

#[test]
fn breadcrumb_skips_the_level_that_was_left_out() {
    let notes = notes_of("# A\n### B\n==x==\n## C\n==y==\n", &[".", "n.md"]);
    assert_eq!(notes[0].contents, "{{c1::x}}<br>n > A > B");
    assert_eq!(notes[1].contents, "{{c1::y}}<br>n > A > C");
}

#[test]
fn handle_heading_renders_its_elements() {
    let heading = Heading {
        level: 2,
        elements: vec![
            Element::Char('a'),
            Element::Code(Code { multiline: false, text: "b".to_string() }),
            Element::Link(Link {
                embed: false,
                target: "t".to_string(),
                rename: Some("r".to_string()),
            }),
        ],
        newline: '\n',
    };
    let mut stack = strings(&["top", "old", "deep"]);
    let mut pictures = Vec::new();
    assert_eq!(handle_heading(&heading, &mut stack, &mut pictures, &Answers::new()), Ok(()));
    assert_eq!(stack, strings(&["top", "a`b`r"]));
    assert!(pictures.is_empty());
}

#[test]
fn handle_heading_leaves_the_stack_on_an_error() {
    let heading = Heading {
        level: 1,
        elements: vec![Element::Math(Math { display: false, text: "x".to_string() })],
        newline: '\n',
    };
    let error = MathConvertError::IsTypst(IsTypstError::Spawn("gone".to_string()));
    let mut answers = Answers::new();
    answers.math.push(("$x$".to_string(), MathAnswer::Failed(error.duplicate())));
    let mut stack = strings(&["top"]);
    let mut pictures = Vec::new();
    assert_eq!(handle_heading(&heading, &mut stack, &mut pictures, &answers), Err(error));
    assert_eq!(stack, strings(&["top"]));
}

#[test]
fn the_path_is_joined_without_its_start_and_its_extension() {
    assert_eq!(document_path(&strings(&[".", "dir", "sub", "my.note.md"])), "dir > sub > my.note");
    assert_eq!(document_path(&strings(&[".", "note.md"])), "note");
    assert_eq!(document_path(&strings(&[".", "dir.d", "note"])), "dir.d > note");
    assert_eq!(document_path(&strings(&["."])), "");
    assert_eq!(document_path(&strings(&[])), "");
}

#[test]
fn a_note_holds_the_identifier_of_its_comment() {
    let text = "==a==\n<!--NoteID:1700000000001-->\n==b==\n<!--NoteID:0000000042-->";
    let notes = notes_of(text, &[".", "n.md"]);
    assert_eq!(notes[0].note_id, Some(NoteId(1700000000001)));
    assert_eq!(notes[0].remaining_length, 30);
    assert_eq!(notes[1].note_id, Some(NoteId(42)));
    assert_eq!(notes[1].remaining_length, 0);
}

#[test]
fn tags_are_gathered_in_order() {
    let text = "#one text #two\n==a== #three\n";
    let collected = handle_md(text, &strings(&[".", "n.md"]), &Answers::new()).unwrap();
    assert_eq!(collected.tags, strings(&["#one", "#two"]));
    assert_eq!(collected.clozes[0].contents, "{{c1::a}} #three<br>n");
}

#[test]
fn code_is_rendered_with_its_delimiters() {
    assert_eq!(code_to_string(&Code { multiline: false, text: "a}}b".to_string() }), "`a}}b`");
    assert_eq!(code_to_string(&Code { multiline: true, text: "x\ny".to_string() }), "```x\ny```");
}

#[test]
fn math_without_an_answer_is_latex() {
    let answers = Answers::new();
    let inline = Math { display: false, text: "a+b".to_string() };
    let display = Math { display: true, text: "a+b".to_string() };
    assert_eq!(convert_math(&inline, &answers), Ok("\\(a+b\\)".to_string()));
    assert_eq!(convert_math(&display, &answers), Ok("\\[a+b\\]".to_string()));
}

#[test]
fn math_braces_are_parted() {
    let math = Math { display: false, text: "\\frac{a}{b}}".to_string() };
    let text = convert_math(&math, &Answers::new()).unwrap();
    assert_eq!(text, "\\(\\frac{a}{b} }\\)");
    assert!(!text.contains("}}"));
    let nested = Math { display: false, text: "{{a}}{{b}}}".to_string() };
    assert_eq!(convert_math(&nested, &Answers::new()).unwrap(), "\\({{a} }{{b} }}\\)");
}

#[test]
fn typst_math_is_the_converters_output_without_its_last_character() {
    let mut answers = Answers::new();
    answers.math.push(("$ x $".to_string(), MathAnswer::Typst("\\[x_{y}}\\]\n".to_string())));
    answers.math.push(("$x$".to_string(), MathAnswer::Latex));
    answers.math.push(("$x$".to_string(), MathAnswer::Typst("never".to_string())));
    answers.math.push(("$e$".to_string(), MathAnswer::Typst(String::new())));
    let display = Math { display: true, text: "x".to_string() };
    let inline = Math { display: false, text: "x".to_string() };
    let empty = Math { display: false, text: "e".to_string() };
    assert_eq!(convert_math(&display, &answers), Ok("\\[x_{y} }\\]".to_string()));
    assert_eq!(convert_math(&inline, &answers), Ok("\\(x\\)".to_string()));
    assert_eq!(convert_math(&empty, &answers), Ok(String::new()));
}

#[test]
fn a_failed_math_answer_is_the_error() {
    let error = MathConvertError::TypstToLatex(TypstToLatexError::ErrExit("1".to_string()));
    let mut answers = Answers::new();
    answers.math.push(("$x$".to_string(), MathAnswer::Failed(error.duplicate())));
    let math = Math { display: false, text: "x".to_string() };
    assert_eq!(convert_math(&math, &answers), Err(error.duplicate()));
    let result = handle_md("ok ==a==\n==b $x$==\n", &strings(&[".", "n.md"]), &answers);
    assert_eq!(result, Err(HandleMdError::MathConvert(error)));
}

#[test]
fn math_outside_headings_and_blocks_is_not_converted() {
    let error = MathConvertError::IsTypst(IsTypstError::Wait("w".to_string()));
    let mut answers = Answers::new();
    answers.math.push(("$x$".to_string(), MathAnswer::Failed(error)));
    let collected = handle_md("text $x$\n\n==a==", &strings(&[".", "n.md"]), &answers).unwrap();
    assert_eq!(collected.clozes.len(), 1);
}

#[test]
fn a_link_shows_its_rename_or_its_target() {
    let mut pictures = Vec::new();
    let answers = Answers::new();
    let bare = Link { embed: false, target: "t".to_string(), rename: None };
    let renamed = Link { embed: false, target: "t".to_string(), rename: Some("r".to_string()) };
    assert_eq!(link_to_string(&bare, &mut pictures, &answers), "t");
    assert_eq!(link_to_string(&renamed, &mut pictures, &answers), "r");
    assert!(pictures.is_empty());
}

#[test]
fn an_embedded_image_on_disk_becomes_a_picture() {
    let mut answers = Answers::new();
    answers.images.push(("a/p.png".to_string(), Some("/abs/a/p.png".to_string())));
    answers.images.push(("q.jxl".to_string(), Some("/tmp/q.jpg".to_string())));
    answers.images.push(("gone.png".to_string(), None));
    let mut pictures = Vec::new();
    let embed = |target: &str| Link {
        embed: true,
        target: target.to_string(),
        rename: Some("100".to_string()),
    };
    assert_eq!(link_to_string(&embed("a/p.png"), &mut pictures, &answers), "");
    assert_eq!(link_to_string(&embed("q.jxl"), &mut pictures, &answers), "");
    assert_eq!(link_to_string(&embed("gone.png"), &mut pictures, &answers), "100");
    assert_eq!(link_to_string(&embed("unasked.png"), &mut pictures, &answers), "100");
    assert_eq!(link_to_string(&embed("note"), &mut pictures, &answers), "100");
    let plain = Link { embed: false, target: "a/p.png".to_string(), rename: None };
    assert_eq!(link_to_string(&plain, &mut pictures, &answers), "a/p.png");
    assert_eq!(
        pictures,
        vec![
            Picture::new("/abs/a/p.png".to_string(), "a/p.png".to_string()),
            Picture::new("/tmp/q.jpg".to_string(), "q.jpg".to_string()),
        ]
    );
    assert_eq!(pictures[0].fields, "Back Extra");
}

#[test]
fn maybe_handle_image_says_whether_it_took_a_picture() {
    let mut answers = Answers::new();
    answers.images.push(("p.png".to_string(), Some("/p.png".to_string())));
    answers.images.push(("p.txt".to_string(), Some("/p.txt".to_string())));
    let mut pictures = Vec::new();
    assert!(maybe_handle_image("p.png", &mut pictures, &answers));
    assert!(!maybe_handle_image("p.txt", &mut pictures, &answers));
    assert!(!maybe_handle_image("q.png", &mut pictures, &answers));
    assert_eq!(pictures.len(), 1);
}

#[test]
fn images_are_known_by_their_extension_in_lower_case() {
    let plain =
        ["jpg", "jpeg", "png", "gif", "bmp", "svg", "webp", "apng", "ico", "tif", "tiff", "avif"];
    for ext in plain {
        assert_eq!(image_kind(&format!("dir/name.{ext}")), ImageKind::Plain);
    }
    assert_eq!(image_kind("a.b/c.jxl"), ImageKind::Reencode);
    for path in ["a.PNG", "a.pngx", "png", ".png", "dir/.png", "a.png/b", "a.", "", "a.png.txt"] {
        assert_eq!(image_kind(path), ImageKind::NoImage);
    }
}

#[test]
fn an_element_is_rendered_by_its_kind() {
    let mut pictures = Vec::new();
    let answers = Answers::new();
    assert_eq!(
        element_to_string(&Element::Char('é'), &mut pictures, &answers),
        Ok("é".to_string())
    );
    assert_eq!(
        element_to_string(
            &Element::Math(Math { display: false, text: "x".to_string() }),
            &mut pictures,
            &answers
        ),
        Ok("\\(x\\)".to_string())
    );
}

#[test]
fn a_block_is_rendered_with_code_math_and_links() {
    let mut answers = Answers::new();
    answers.images.push(("i.png".to_string(), Some("/i.png".to_string())));
    let notes = handle_md(
        "see `c` ==$m$ [[t|r]]== ![[i.png]] end\n",
        &strings(&[".", "dir", "n.md"]),
        &answers,
    )
    .unwrap()
    .clozes;
    assert_eq!(notes[0].contents, "see `c` {{c1::\\(m\\) r}}  end<br>dir > n");
    assert_eq!(notes[0].pictures, vec![Picture::new("/i.png".to_string(), "i.png".to_string())]);
    assert_eq!(notes[0].note_id, None);
    assert_eq!(notes[0].remaining_length, 1);
}

#[test]
fn handle_cloze_lines_appends_one_note() {
    let doc = parse("a ==b==");
    let block = match &doc.elements[0] {
        FileElement::ClozeLines(block) => block,
        other => panic!("not a cloze block: {other:?}"),
    };
    let mut notes = Vec::new();
    let headings = strings(&["H", "", "S"]);
    assert_eq!(handle_cloze_lines(block, &headings, &mut notes, "p", &Answers::new()), Ok(()));
    assert_eq!(notes.len(), 1);
    assert_eq!(notes[0].contents, "a {{c1::b}}<br>p > H > S");
}

#[test]
fn the_questions_of_a_note_are_those_of_its_headings_and_blocks() {
    let doc = parse(
        "$out$ ![[out.png]]\n# h $a$\n==b $$c$$== ![[d.png]] ![[e.jxl]] [[f.png]] ![[g]]\n",
    );
    assert_eq!(
        queries(&doc, true),
        vec![
            Query::Image { target: "d.png".to_string(), reencode: false },
            Query::Image { target: "e.jxl".to_string(), reencode: true },
        ]
    );
    assert_eq!(
        queries(&doc, false),
        vec![
            Query::Math("$a$".to_string()),
            Query::Math("$ c $".to_string()),
            Query::Image { target: "d.png".to_string(), reencode: false },
            Query::Image { target: "e.jxl".to_string(), reencode: true },
        ]
    );
}

#[test]
fn collect_gives_the_last_heading_stack() {
    let doc = parse("# A\n## B\n# C\n### D\n");
    let collected = collect(&doc, "p", &Answers::new()).unwrap();
    assert_eq!(collected.headings, strings(&["C", "", "D"]));
}

#[test]
fn errors_say_what_failed() {
    let spawn = IsTypstError::Spawn("no such file".to_string());
    assert_eq!(spawn.message(), "Failed to spawn typst process: no such file");
    let x = || "x".to_string();
    assert_eq!(
        IsTypstError::StdinWrite(x()).message(),
        "Failed to write to typst process stdin: x"
    );
    assert_eq!(IsTypstError::Wait(x()).message(), "Failed to wait for typst process: x");
    assert_eq!(TypstToLatexError::Spawn(x()).message(), "Failed to spawn pandoc process: x");
    assert_eq!(
        TypstToLatexError::StdinWrite(x()).message(),
        "Failed to write to pandoc process stdin: x"
    );
    assert_eq!(TypstToLatexError::Wait(x()).message(), "Failed to wait for pandoc process: x");
    assert_eq!(TypstToLatexError::ErrExit(x()).message(), "Pandoc failed: x");
    assert_eq!(TypstToLatexError::Utf8(x()).message(), "Pandoc output not utf8: x");
    assert_eq!(
        MathConvertError::IsTypst(spawn).message(),
        "Checking if math is typst failed: Failed to spawn typst process: no such file"
    );
    assert_eq!(
        MathConvertError::TypstToLatex(TypstToLatexError::ErrExit("2".to_string())).message(),
        "Converting typst to latex failed: Pandoc failed: 2"
    );
    assert_eq!(
        HandleMdError::ReadWriteFile { file: "a.md".to_string(), error: "denied".to_string() }
            .message(),
        "Reading/writing file (a.md) failed: denied"
    );
    assert_eq!(
        HandleMdError::Lock("poisoned".to_string()).message(),
        "Failed to lock NOTES: poisoned"
    );
    assert_eq!(
        HandleMdError::MathConvert(MathConvertError::IsTypst(IsTypstError::Wait("w".to_string())))
            .message(),
        "Failed to convert math: Checking if math is typst failed: \
         Failed to wait for typst process: w"
    );
    assert_eq!(
        HandleMdError::DeckLookup("a/b.md".to_string()).message(),
        "No matching anki deck found for path a/b.md"
    );
}

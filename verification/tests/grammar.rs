use anksidian::document::{
    ClozeLines, ClozePart, Code, Document, Element, FileElement, Heading, Link, Math,
    NoteIdComment,
};
use anksidian::parser::parse;

fn chars(text: &str) -> Vec<Element> {
    text.chars().map(Element::Char).collect()
}

fn plain(text: &str) -> Vec<FileElement> {
    text.chars().map(FileElement::Char).collect()
}

#[test]
fn empty_text_is_an_empty_document() {
    assert_eq!(parse(""), Document { elements: vec![] });
}

#[test]
fn plain_text_is_one_element_per_character() {
    assert_eq!(parse("héllo\n").elements, plain("héllo\n"));
}

#[test]
fn every_text_has_a_parse() {
    for text in [
        "==", "===", "====", "==a", "a==", "`", "``", "```", "$", "$$", "$$$", "[[", "[[]]",
        "![[", "[[a|]]", "#", "# ", "##", "#\n", "\r\n", "\r", "<!--NoteID:", "==a==\n<!--NoteID:",
        "==`==`==", "== ==", "==\n==", "∑==é==∫",
    ] {
        let doc = parse(text);
        assert!(doc.elements.len() <= text.chars().count());
        assert!(text.is_empty() || !doc.elements.is_empty());
    }
}

#[test]
fn inline_code_is_found() {
    assert_eq!(
        parse("`a b`").elements,
        vec![FileElement::Code(Code { multiline: false, text: "a b".to_string() })]
    );
}

#[test]
fn fenced_code_is_found_and_may_hold_single_backticks() {
    assert_eq!(
        parse("```a`\nb```").elements,
        vec![FileElement::Code(Code { multiline: true, text: "a`\nb".to_string() })]
    );
}

#[test]
fn code_without_an_end_is_plain_text() {
    assert_eq!(parse("`ab").elements, plain("`ab"));
    assert_eq!(parse("``").elements, plain("``"));
    assert_eq!(parse("```a\nb``").elements, plain("```a\nb``").into_iter().take(2).chain([
        FileElement::Code(Code { multiline: false, text: "a\nb".to_string() }),
        FileElement::Char('`'),
    ]).collect::<Vec<_>>());
    assert_eq!(parse("```ab").elements, plain("```ab"));
}

#[test]
fn inline_and_display_math_are_found() {
    assert_eq!(
        parse("$x$").elements,
        vec![FileElement::Math(Math { display: false, text: "x".to_string() })]
    );
    assert_eq!(
        parse("$$x$y$$").elements,
        vec![FileElement::Math(Math { display: true, text: "x$y".to_string() })]
    );
}

#[test]
fn links_are_found_with_rename_and_embed() {
    assert_eq!(
        parse("[[a b]]").elements,
        vec![FileElement::Link(Link { embed: false, target: "a b".to_string(), rename: None })]
    );
    assert_eq!(
        parse("[[a|b]]").elements,
        vec![FileElement::Link(Link {
            embed: false,
            target: "a".to_string(),
            rename: Some("b".to_string())
        })]
    );
    assert_eq!(
        parse("![[p.png|100]]").elements,
        vec![FileElement::Link(Link {
            embed: true,
            target: "p.png".to_string(),
            rename: Some("100".to_string())
        })]
    );
}

#[test]
fn a_link_does_not_span_lines_and_needs_a_target() {
    assert_eq!(parse("[[a\nb]]").elements, plain("[[a\nb]]"));
    assert_eq!(parse("[[]]").elements, plain("[[]]"));
    assert_eq!(parse("[[a|]]").elements, plain("[[a|]]"));
    assert_eq!(parse("!x").elements, plain("!x"));
}

#[test]
fn a_heading_has_its_level_and_its_line() {
    assert_eq!(
        parse("## Ab\nc").elements,
        vec![
            FileElement::Heading(Heading { level: 2, elements: chars("Ab"), newline: '\n' }),
            FileElement::Char('c'),
        ]
    );
}

#[test]
fn a_heading_holds_inline_elements() {
    assert_eq!(
        parse("# a `b` $c$\r").elements,
        vec![FileElement::Heading(Heading {
            level: 1,
            elements: vec![
                Element::Char('a'),
                Element::Char(' '),
                Element::Code(Code { multiline: false, text: "b".to_string() }),
                Element::Char(' '),
                Element::Math(Math { display: false, text: "c".to_string() }),
            ],
            newline: '\r',
        })]
    );
}

#[test]
fn a_heading_needs_its_line_break() {
    assert_eq!(
        parse("# A").elements,
        vec![FileElement::Char('#'), FileElement::Char(' '), FileElement::Char('A')]
    );
}

#[test]
fn in_a_pair_of_line_breaks_the_first_ends_the_heading() {
    assert_eq!(
        parse("# A\r\n").elements,
        vec![
            FileElement::Heading(Heading { level: 1, elements: chars("A"), newline: '\r' }),
            FileElement::Char('\n'),
        ]
    );
}

#[test]
fn a_tag_keeps_its_hash_and_ends_at_a_space() {
    assert_eq!(
        parse("#tag x").elements,
        vec![
            FileElement::Tag("#tag".to_string()),
            FileElement::Char(' '),
            FileElement::Char('x'),
        ]
    );
    assert_eq!(
        parse("#a#b").elements,
        vec![FileElement::Tag("#a".to_string()), FileElement::Tag("#b".to_string())]
    );
}

#[test]
fn a_cloze_block_takes_the_line_of_its_first_cloze() {
    assert_eq!(
        parse("A\n==B==\n").elements,
        vec![
            FileElement::Char('A'),
            FileElement::Char('\n'),
            FileElement::ClozeLines(ClozeLines {
                prefix: vec![],
                first: chars("B"),
                rest: vec![],
                note_id: None,
                remaining: 1,
            }),
            FileElement::Char('\n'),
        ]
    );
}

#[test]
fn a_cloze_block_has_prefix_clozes_and_text_between() {
    assert_eq!(
        parse("x ==a== y ==b==").elements,
        vec![FileElement::ClozeLines(ClozeLines {
            prefix: chars("x "),
            first: chars("a"),
            rest: vec![
                ClozePart::Element(Element::Char(' ')),
                ClozePart::Element(Element::Char('y')),
                ClozePart::Element(Element::Char(' ')),
                ClozePart::Cloze(chars("b")),
            ],
            note_id: None,
            remaining: 0,
        })]
    );
}

#[test]
fn a_cloze_may_span_lines_and_hold_code_with_equal_signs() {
    assert_eq!(
        parse("==a\nb `==` c==").elements,
        vec![FileElement::ClozeLines(ClozeLines {
            prefix: vec![],
            first: vec![
                Element::Char('a'),
                Element::Char('\n'),
                Element::Char('b'),
                Element::Char(' '),
                Element::Code(Code { multiline: false, text: "==".to_string() }),
                Element::Char(' '),
                Element::Char('c'),
            ],
            rest: vec![],
            note_id: None,
            remaining: 0,
        })]
    );
}

#[test]
fn an_empty_cloze_is_no_cloze() {
    assert_eq!(parse("====").elements, plain("===="));
}

#[test]
fn the_identifier_comment_belongs_to_the_block() {
    assert_eq!(
        parse("==a==\n<!--NoteID:1700000000000-->\nrest").elements,
        vec![
            FileElement::ClozeLines(ClozeLines {
                prefix: vec![],
                first: chars("a"),
                rest: vec![],
                note_id: Some(NoteIdComment {
                    newline: '\n',
                    digits: "1700000000000".to_string(),
                    trailing: Some('\n'),
                }),
                remaining: 4,
            }),
            FileElement::Char('r'),
            FileElement::Char('e'),
            FileElement::Char('s'),
            FileElement::Char('t'),
        ]
    );
}

#[test]
fn an_identifier_has_ten_to_thirteen_digits() {
    let with = |digits: &str| parse(&format!("==a==\n<!--NoteID:{digits}-->"));
    let has_id = |doc: &Document| match &doc.elements[0] {
        FileElement::ClozeLines(block) => block.note_id.is_some(),
        _ => false,
    };
    assert!(!has_id(&with("123456789")));
    assert!(has_id(&with("1234567890")));
    assert!(has_id(&with("1234567890123")));
    assert!(!has_id(&with("12345678901234")));
    assert!(!has_id(&with("12345678x0")));
}

#[test]
fn a_comment_on_the_same_line_is_text_of_the_block() {
    let doc = parse("==a==<!--NoteID:1700000000000-->");
    match &doc.elements[0] {
        FileElement::ClozeLines(block) => {
            assert!(block.note_id.is_none());
            assert_eq!(block.rest.len(), "<!--NoteID:1700000000000-->".len());
            assert_eq!(block.remaining, 0);
        }
        other => panic!("not a cloze block: {other:?}"),
    }
}

#[test]
fn a_heading_line_with_a_cloze_is_a_cloze_block() {
    let doc = parse("# h ==a==\n");
    assert_eq!(doc.elements.len(), 2);
    assert!(matches!(doc.elements[0], FileElement::ClozeLines(_)));
}

fn element_source(e: &Element) -> String {
    match e {
        Element::Code(c) if c.multiline => format!("```{}```", c.text),
        Element::Code(c) => format!("`{}`", c.text),
        Element::Math(m) if m.display => format!("$${}$$", m.text),
        Element::Math(m) => format!("${}$", m.text),
        Element::Link(l) => {
            let embed = if l.embed { "!" } else { "" };
            match &l.rename {
                Some(r) => format!("{embed}[[{}|{r}]]", l.target),
                None => format!("{embed}[[{}]]", l.target),
            }
        }
        Element::Char(c) => c.to_string(),
    }
}

fn elements_source(es: &[Element]) -> String {
    es.iter().map(element_source).collect()
}

fn document_source(doc: &Document) -> String {
    let mut out = String::new();
    for e in &doc.elements {
        match e {
            FileElement::ClozeLines(b) => {
                out.push_str(&elements_source(&b.prefix));
                out.push_str(&format!("=={}==", elements_source(&b.first)));
                for part in &b.rest {
                    match part {
                        ClozePart::Cloze(es) => {
                            out.push_str(&format!("=={}==", elements_source(es)))
                        }
                        ClozePart::Element(e) => out.push_str(&element_source(e)),
                    }
                }
                if let Some(n) = &b.note_id {
                    out.push(n.newline);
                    out.push_str(&format!("<!--NoteID:{}-->", n.digits));
                    out.extend(n.trailing);
                }
            }
            FileElement::Heading(h) => {
                out.push_str(&"#".repeat(h.level));
                out.push(' ');
                out.push_str(&elements_source(&h.elements));
                out.push(h.newline);
            }
            FileElement::Tag(t) => out.push_str(t),
            FileElement::Code(c) => out.push_str(&element_source(&Element::Code(c.clone()))),
            FileElement::Math(m) => out.push_str(&element_source(&Element::Math(m.clone()))),
            FileElement::Link(l) => out.push_str(&element_source(&Element::Link(l.clone()))),
            FileElement::Char(c) => out.push(*c),
        }
    }
    out
}

#[test]
fn a_document_holds_its_whole_text() {
    let pieces = [
        "a", " ", "\n", "\r", "#", "=", "==", "`", "```", "$", "$$", "[[", "]]", "|", "!", "é",
        "<!--NoteID:", "1234567890", "-->", "x==y==", "# h\n", "#t",
    ];
    let mut state: u64 = 0x2545F4914F6CDD1D;
    for round in 0..400 {
        let mut text = String::new();
        for _ in 0..(round % 12) + 1 {
            state ^= state << 13;
            state ^= state >> 7;
            state ^= state << 17;
            text.push_str(pieces[(state % pieces.len() as u64) as usize]);
        }
        let doc = parse(&text);
        assert_eq!(document_source(&doc), text);
        let mut after = text.chars().count();
        for e in &doc.elements {
            if let FileElement::ClozeLines(b) = e {
                assert!(b.remaining < after);
                after = b.remaining;
            }
        }
    }
}

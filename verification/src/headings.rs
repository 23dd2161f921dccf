//! The heading stack: the headings under which the current position of a
//! note stands, one slot per level, and the breadcrumb made of them.

use vstd::prelude::*;
use crate::document::Heading;
use crate::error::MathConvertError;
use crate::render::{
    elements_pictures, elements_text, extension_dot, extension_dot_from, lemma_pictures_view_append,
    pictures_view, push_elements, Answers, Picture,
};
use crate::text::{chars_of, push_text, string_from, strings_view};

verus! {

/// The stack after a heading of the given level and text: it has one slot
/// per level up to that of the heading, the heading is in the last, the
/// slots below keep what they held, and a level that was skipped is empty.
pub open spec fn heading_applied(stack: Seq<Seq<char>>, level: nat, text: Seq<char>) -> Seq<
    Seq<char>,
> {
    Seq::new(
        level,
        |i: int|
            if i == level - 1 {
                text
            } else if i < stack.len() {
                stack[i]
            } else {
                Seq::empty()
            },
    )
}

/// Puts a heading on the stack. A heading above or at the depth of the stack
/// cuts the stack to its level and takes the last slot. A deeper one fills
/// the levels between with empty slots and is appended.
pub fn apply_heading(headings: &mut Vec<String>, level: usize, text: String)
    requires
        level >= 1,
    ensures
        strings_view(final(headings)@) == heading_applied(
            strings_view(old(headings)@),
            level as nat,
            text@,
        ),
        final(headings)@.len() == level,
{
    if level <= headings.len() {
        headings.truncate(level - 1);
    } else {
        while headings.len() < level - 1
            invariant
                old(headings)@.len() <= headings@.len() <= level - 1,
                forall|i: int|
                    0 <= i < headings@.len() ==> (#[trigger] headings@[i])@ == (if i < old(
                        headings,
                    )@.len() {
                        old(headings)@[i]@
                    } else {
                        Seq::<char>::empty()
                    }),
            decreases level - 1 - headings@.len(),
        {
            headings.push(String::new());
        }
    }
    headings.push(text);
    assert(strings_view(headings@) =~= heading_applied(
        strings_view(old(headings)@),
        level as nat,
        text@,
    ));
}

/// Takes a heading into the stack: its elements are rendered, and the text
/// is put on the stack at the heading's level. The pictures of its elements
/// are appended to `pictures`. On an error nothing changes.
pub fn handle_heading(
    heading: &Heading,
    headings: &mut Vec<String>,
    pictures: &mut Vec<Picture>,
    answers: &Answers,
) -> (r: Result<(), MathConvertError>)
    requires
        heading.level >= 1,
    ensures
        match r {
            Ok(_) => elements_text(heading@.elements, *answers) is Ok && strings_view(
                final(headings)@,
            ) == heading_applied(
                strings_view(old(headings)@),
                heading.level as nat,
                elements_text(heading@.elements, *answers)->Ok_0,
            ) && final(headings)@.len() == heading.level && pictures_view(final(pictures)@)
                == pictures_view(old(pictures)@) + elements_pictures(
                heading@.elements,
                *answers,
            ),
            Err(e) => elements_text(heading@.elements, *answers) == Err::<
                Seq<char>,
                MathConvertError,
            >(e) && *final(headings) == *old(headings) && *final(pictures) == *old(pictures),
        },
{
    let mut out: Vec<char> = Vec::new();
    let mut found: Vec<Picture> = Vec::new();
    match push_elements(&mut out, &heading.elements, &mut found, answers) {
        Err(e) => Err(e),
        Ok(_) => {
            let ghost text = elements_text(heading@.elements, *answers)->Ok_0;
            assert(out@ =~= text);
            assert(pictures_view(found@) =~= elements_pictures(heading@.elements, *answers));
            apply_heading(headings, heading.level, string_from(&out));
            proof {
                lemma_pictures_view_append(pictures@, found@);
            }
            pictures.append(&mut found);
            Ok(())
        },
    }
}

/// What stands between two parts of a breadcrumb.
pub open spec fn arrow() -> Seq<char> {
    seq![' ', '>', ' ']
}

/// The headings of the stack as the end of a breadcrumb: each one that is
/// not empty, with ` > ` before it.
pub open spec fn trail(stack: Seq<Seq<char>>) -> Seq<char>
    decreases stack.len(),
{
    if stack.len() == 0 {
        Seq::empty()
    } else if stack.last().len() == 0 {
        trail(stack.drop_last())
    } else {
        trail(stack.drop_last()) + arrow() + stack.last()
    }
}

/// The stack without its empty slots.
pub open spec fn named_levels(stack: Seq<Seq<char>>) -> Seq<Seq<char>>
    decreases stack.len(),
{
    if stack.len() == 0 {
        Seq::empty()
    } else if stack.last().len() == 0 {
        named_levels(stack.drop_last())
    } else {
        named_levels(stack.drop_last()).push(stack.last())
    }
}

/// A level that was left out adds nothing to the breadcrumb: the trail of a
/// stack is that of the stack without its empty slots.
pub proof fn lemma_trail_skips_empty(stack: Seq<Seq<char>>)
    ensures
        trail(named_levels(stack)) == trail(stack),
    decreases stack.len(),
{
    if stack.len() > 0 {
        lemma_trail_skips_empty(stack.drop_last());
        if stack.last().len() > 0 {
            let named = named_levels(stack.drop_last()).push(stack.last());
            assert(named.drop_last() =~= named_levels(stack.drop_last()));
        }
    }
}

/// After a heading the stack is as deep as the heading's level, whatever it
/// was before.
pub proof fn lemma_stack_depth(stack: Seq<Seq<char>>, level: nat, text: Seq<char>)
    requires
        level >= 1,
    ensures
        heading_applied(stack, level, text).len() == level,
        heading_applied(stack, level, text)[level - 1] == text,
        forall|i: int|
            0 <= i < level - 1 && i < stack.len() ==> heading_applied(stack, level, text)[i]
                == stack[i],
        forall|i: int|
            stack.len() <= i < level - 1 ==> heading_applied(stack, level, text)[i].len() == 0,
{
}

/// Appends the trail of the stack to `out`.
pub fn push_trail(out: &mut Vec<char>, headings: &Vec<String>)
    ensures
        final(out)@ == old(out)@ + trail(strings_view(headings@)),
{
    let ghost stack = strings_view(headings@);
    let mut i: usize = 0;
    proof {
        assert(stack.take(0) =~= Seq::<Seq<char>>::empty());
        assert(out@ + Seq::<char>::empty() =~= out@);
    }
    while i < headings.len()
        invariant
            i <= headings@.len(),
            stack == strings_view(headings@),
            out@ == old(out)@ + trail(stack.take(i as int)),
        decreases headings@.len() - i,
    {
        proof {
            assert(stack.take(i + 1).drop_last() =~= stack.take(i as int));
            assert(stack.take(i + 1).last() == headings@[i as int]@);
        }
        let ghost before = trail(stack.take(i as int));
        if !headings[i].as_str().is_empty() {
            out.push(' ');
            out.push('>');
            out.push(' ');
            push_text(out, headings[i].as_str());
            assert(out@ =~= old(out)@ + (before + arrow() + headings@[i as int]@));
        }
        i += 1;
    }
    assert(stack.take(i as int) =~= stack);
}

/// A file name without its extension.
pub open spec fn without_extension(name: Seq<char>) -> Seq<char> {
    match extension_dot(name) {
        Some(d) => name.subrange(0, d),
        None => name,
    }
}

/// The parts joined by ` > `, the last of them without its extension.
pub open spec fn joined_path(parts: Seq<Seq<char>>) -> Seq<char>
    decreases parts.len(),
{
    if parts.len() == 0 {
        Seq::empty()
    } else if parts.len() == 1 {
        without_extension(parts[0])
    } else {
        parts[0] + arrow() + joined_path(parts.subrange(1, parts.len() as int))
    }
}

/// The path of a note as the start of a breadcrumb. The first component,
/// the directory from which the note was reached, is left out; the others
/// are joined by ` > `, and the file name loses its extension.
pub open spec fn path_text(components: Seq<Seq<char>>) -> Seq<char> {
    if components.len() == 0 {
        Seq::empty()
    } else {
        joined_path(components.subrange(1, components.len() as int))
    }
}

fn name_without_extension(name: &str) -> (r: Vec<char>)
    ensures
        r@ == without_extension(name@),
{
    let mut chars = chars_of(name);
    if chars.len() == 0 {
        return chars;
    }
    let mut p: usize = chars.len() - 1;
    loop
        invariant
            p < chars@.len(),
            chars@ == name@,
            extension_dot(name@) == extension_dot_from(name@, p as int),
        decreases p,
    {
        if chars[p] == '/' {
            return chars;
        }
        if chars[p] == '.' {
            if p >= 1 && chars[p - 1] != '/' {
                chars.truncate(p);
                assert(chars@ =~= name@.subrange(0, p as int));
            }
            return chars;
        }
        if p == 0 {
            assert(extension_dot_from(name@, -1) is None);
            return chars;
        }
        p -= 1;
    }
}

/// The path of a note as the start of a breadcrumb.
pub fn document_path(components: &Vec<String>) -> (r: String)
    ensures
        r@ == path_text(strings_view(components@)),
{
    let ghost parts = strings_view(components@);
    let n = components.len();
    let mut out: Vec<char> = Vec::new();
    if n <= 1 {
        proof {
            if n == 1 {
                assert(parts.subrange(1, 1).len() == 0);
            }
        }
        return string_from(&out);
    }
    let mut i: usize = 1;
    while i < n - 1
        invariant
            1 <= i <= n - 1,
            n == components@.len(),
            parts == strings_view(components@),
            path_text(parts) == out@ + joined_path(parts.subrange(i as int, n as int)),
        decreases n - i,
    {
        let ghost rest = parts.subrange(i as int, n as int);
        proof {
            assert(rest.subrange(1, rest.len() as int) =~= parts.subrange(i + 1, n as int));
            assert(rest[0] == components@[i as int]@);
        }
        let ghost before = out@;
        push_text(&mut out, components[i].as_str());
        out.push(' ');
        out.push('>');
        out.push(' ');
        proof {
            let tail = joined_path(parts.subrange(i + 1, n as int));
            assert(before + (rest[0] + arrow() + tail) =~= out@ + tail);
        }
        i += 1;
    }
    proof {
        let rest = parts.subrange(i as int, n as int);
        assert(rest.len() == 1);
        assert(rest[0] == components@[i as int]@);
    }
    let mut last = name_without_extension(components[i].as_str());
    out.append(&mut last);
    string_from(&out)
}

} // verus!

//! Inline elements as the text that a flashcard shows.
//!
//! Whether a math span is Typst, what a converter made of it, and whether an
//! embedded image is on disk are not decided here: the caller asks elsewhere
//! and hands in the answers. An element without an answer is rendered as if
//! the answer had been "no".

use vstd::prelude::*;
use crate::document::{
    elements_view, Code, CodeView, Element, ElementView, Link, LinkView, Math, MathView,
};
use crate::error::MathConvertError;
use crate::text::{braces_parted, chars_of, push_braces_parted, push_text, same_text, string_of};

verus! {

/// An image that a note needs: it has to be in the store before the note is
/// created or updated.
#[derive(Debug, PartialEq, Eq)]
pub struct Picture {
    /// Where the image is on disk.
    pub path: String,
    /// Under which name the store keeps it.
    pub filename: String,
    /// The field of the note that the image goes to.
    pub fields: String,
}

pub struct PictureView {
    pub path: Seq<char>,
    pub filename: Seq<char>,
    pub fields: Seq<char>,
}

impl View for Picture {
    type V = PictureView;

    open spec fn view(&self) -> PictureView {
        PictureView { path: self.path@, filename: self.filename@, fields: self.fields@ }
    }
}

/// The field of a note that every image goes to.
pub open spec fn back_extra() -> Seq<char> {
    "Back Extra"@
}

impl Picture {
    /// An image for the back of a note.
    pub fn new(path: String, filename: String) -> (r: Self)
        ensures
            r@ == (PictureView { path: path@, filename: filename@, fields: back_extra() }),
            r.path == path,
            r.filename == filename,
    {
        Picture { path, filename, fields: String::from_str("Back Extra") }
    }

    /// A copy of the picture.
    pub fn duplicate(&self) -> (r: Self)
        ensures
            r == *self,
    {
        Picture {
            path: self.path.clone(),
            filename: self.filename.clone(),
            fields: self.fields.clone(),
        }
    }
}

/// The views of a list of pictures, in order.
pub open spec fn pictures_view(v: Seq<Picture>) -> Seq<PictureView> {
    Seq::new(v.len(), |i: int| v[i]@)
}

/// What was found out about a math span.
#[derive(Debug, PartialEq, Eq)]
pub enum MathAnswer {
    /// It is not Typst: it is taken for LaTeX.
    Latex,
    /// It is Typst, and this is the converter's output for it, with the line
    /// break that ends the output.
    Typst(String),
    /// Finding out failed.
    Failed(MathConvertError),
}

/// What was found out about the math spans and the embedded images of a
/// note. Where a key stands twice, the first entry counts.
#[derive(Debug, PartialEq, Eq)]
pub struct Answers {
    /// By the span's Typst form, see `typst_source`.
    pub math: Vec<(String, MathAnswer)>,
    /// By the link's target: the path of the image on disk, in the format in
    /// which it can be stored, or nothing if there is no such image.
    pub images: Vec<(String, Option<String>)>,
}

/// The first answer from index `i` on that is filed under `key`.
pub open spec fn math_answer_from(entries: Seq<(String, MathAnswer)>, key: Seq<char>, i: int)
    -> Option<MathAnswer>
    decreases entries.len() - i,
{
    if i < 0 || i >= entries.len() {
        None
    } else if entries[i].0@ == key {
        Some(entries[i].1)
    } else {
        math_answer_from(entries, key, i + 1)
    }
}

/// The first image answer from index `i` on that is filed under `key`.
pub open spec fn image_answer_from(
    entries: Seq<(String, Option<String>)>,
    key: Seq<char>,
    i: int,
) -> Option<Option<String>>
    decreases entries.len() - i,
{
    if i < 0 || i >= entries.len() {
        None
    } else if entries[i].0@ == key {
        Some(entries[i].1)
    } else {
        image_answer_from(entries, key, i + 1)
    }
}

impl Answers {
    /// No answers at all.
    pub fn new() -> (r: Self)
        ensures
            r.math@.len() == 0,
            r.images@.len() == 0,
    {
        Answers { math: Vec::new(), images: Vec::new() }
    }

    /// What is known of the math span with the Typst form `key`.
    pub open spec fn math_answer(self, key: Seq<char>) -> Option<MathAnswer> {
        math_answer_from(self.math@, key, 0)
    }

    /// Where the image with the target `key` is on disk, if it is known to
    /// be there.
    pub open spec fn image_path(self, key: Seq<char>) -> Option<String> {
        match image_answer_from(self.images@, key, 0) {
            Some(Some(p)) => Some(p),
            _ => None,
        }
    }

    fn find_math(&self, key: &String) -> (r: Option<usize>)
        ensures
            match r {
                Some(i) => i < self.math@.len() && self.math_answer(key@) == Some(
                    self.math@[i as int].1,
                ),
                None => self.math_answer(key@) is None,
            },
    {
        let mut i: usize = 0;
        while i < self.math.len()
            invariant
                i <= self.math@.len(),
                self.math_answer(key@) == math_answer_from(self.math@, key@, i as int),
            decreases self.math@.len() - i,
        {
            if self.math[i].0 == *key {
                return Some(i);
            }
            i += 1;
        }
        None
    }

    fn find_image(&self, key: &String) -> (r: Option<usize>)
        ensures
            match r {
                Some(i) => i < self.images@.len() && self.images@[i as int].1 is Some
                    && self.image_path(key@) == self.images@[i as int].1,
                None => self.image_path(key@) is None,
            },
    {
        let mut i: usize = 0;
        while i < self.images.len()
            invariant
                i <= self.images@.len(),
                image_answer_from(self.images@, key@, 0) == image_answer_from(
                    self.images@,
                    key@,
                    i as int,
                ),
            decreases self.images@.len() - i,
        {
            if self.images[i].0 == *key {
                if self.images[i].1.is_some() {
                    return Some(i);
                } else {
                    return None;
                }
            }
            i += 1;
        }
        None
    }
}

/// A code span as text: its delimiters and what stands between them, as in
/// the source.
pub open spec fn code_text(c: CodeView) -> Seq<char> {
    if c.multiline {
        seq!['`', '`', '`'] + c.text + seq!['`', '`', '`']
    } else {
        seq!['`'] + c.text + seq!['`']
    }
}

/// A math span in the form in which it is probed and converted as Typst:
/// `$text$` inline, `$ text $` on display.
pub open spec fn typst_source(m: MathView) -> Seq<char> {
    if m.display {
        seq!['$', ' '] + m.text + seq![' ', '$']
    } else {
        seq!['$'] + m.text + seq!['$']
    }
}

/// A math span as LaTeX, taken as it stands: `\(text\)` inline, `\[text\]`
/// on display.
pub open spec fn latex_source(m: MathView) -> Seq<char> {
    if m.display {
        seq!['\\', '['] + m.text + seq!['\\', ']']
    } else {
        seq!['\\', '('] + m.text + seq!['\\', ')']
    }
}

/// A converter's output without the character that ends it.
pub open spec fn without_last(output: Seq<char>) -> Seq<char> {
    if output.len() > 0 {
        output.drop_last()
    } else {
        output
    }
}

/// A math span as the text of a flashcard, or the error that finding out
/// about it ended in. Whatever the source, every `}}` gets a space put in.
pub open spec fn math_text(m: MathView, answers: Answers) -> Result<Seq<char>, MathConvertError> {
    match answers.math_answer(typst_source(m)) {
        Some(MathAnswer::Failed(e)) => Err(e),
        Some(MathAnswer::Typst(output)) => Ok(braces_parted(without_last(output@))),
        _ => Ok(braces_parted(latex_source(m))),
    }
}

/// The position of the `.` that starts the extension of the path `t`, looking
/// from position `p` backwards: the last `.` of the last component, unless
/// that component starts with it.
pub open spec fn extension_dot_from(t: Seq<char>, p: int) -> Option<int>
    decreases p + 1,
{
    if p < 0 || p >= t.len() {
        None
    } else if t[p] == '/' {
        None
    } else if t[p] == '.' {
        if p >= 1 && t[p - 1] != '/' {
            Some(p)
        } else {
            None
        }
    } else {
        extension_dot_from(t, p - 1)
    }
}

/// The position of the `.` that starts the extension of the path `t`.
pub open spec fn extension_dot(t: Seq<char>) -> Option<int> {
    extension_dot_from(t, t.len() - 1)
}

/// The extension of the path `t`: what follows the last `.` of its last
/// component.
pub open spec fn extension(t: Seq<char>) -> Option<Seq<char>> {
    match extension_dot(t) {
        Some(d) => Some(t.subrange(d + 1, t.len() as int)),
        None => None,
    }
}

/// The extensions of the images that a note can show. Case counts: `PNG` is
/// none of them.
pub open spec fn is_image_extension(e: Seq<char>) -> bool {
    ||| e == "jpg"@
    ||| e == "jpeg"@
    ||| e == "jxl"@
    ||| e == "png"@
    ||| e == "gif"@
    ||| e == "bmp"@
    ||| e == "svg"@
    ||| e == "webp"@
    ||| e == "apng"@
    ||| e == "ico"@
    ||| e == "tif"@
    ||| e == "tiff"@
    ||| e == "avif"@
}

/// The path `t` names an image.
pub open spec fn is_image_path(t: Seq<char>) -> bool {
    match extension(t) {
        Some(e) => is_image_extension(e),
        None => false,
    }
}

/// The image has to be encoded anew before the store can show it: JPEG XL
/// becomes JPEG.
pub open spec fn needs_reencoding(t: Seq<char>) -> bool {
    extension(t) == Some("jxl"@)
}

/// The name under which the image `t` is stored: `t` itself, with the
/// extension `jpg` where the image is encoded anew.
pub open spec fn stored_filename(t: Seq<char>) -> Seq<char> {
    match extension_dot(t) {
        Some(d) => if needs_reencoding(t) {
            t.subrange(0, d + 1) + "jpg"@
        } else {
            t
        },
        None => t,
    }
}

/// The text that a link shows: its rename, or else its target.
pub open spec fn link_label(l: LinkView) -> Seq<char> {
    match l.rename {
        Some(r) => r,
        None => l.target,
    }
}

/// The picture that a link brings: an embed of an image that is on disk.
pub open spec fn link_picture(l: LinkView, answers: Answers) -> Option<PictureView> {
    if l.embed && is_image_path(l.target) {
        match answers.image_path(l.target) {
            Some(p) => Some(
                PictureView {
                    path: p@,
                    filename: stored_filename(l.target),
                    fields: back_extra(),
                },
            ),
            None => None,
        }
    } else {
        None
    }
}

/// A link as text: nothing where it brings a picture, else its label.
pub open spec fn link_text(l: LinkView, answers: Answers) -> Seq<char> {
    if link_picture(l, answers) is Some {
        Seq::empty()
    } else {
        link_label(l)
    }
}

/// An element as text, or the error that converting its math ended in.
pub open spec fn element_text(e: ElementView, answers: Answers) -> Result<
    Seq<char>,
    MathConvertError,
> {
    match e {
        ElementView::Code(c) => Ok(code_text(c)),
        ElementView::Math(m) => math_text(m, answers),
        ElementView::Link(l) => Ok(link_text(l, answers)),
        ElementView::Char(c) => Ok(seq![c]),
    }
}

/// The pictures that an element brings: at most one.
pub open spec fn element_pictures(e: ElementView, answers: Answers) -> Seq<PictureView> {
    match e {
        ElementView::Link(l) => match link_picture(l, answers) {
            Some(p) => seq![p],
            None => Seq::empty(),
        },
        _ => Seq::empty(),
    }
}

/// The elements as text, one after the other, or the error of the first
/// whose math could not be converted.
pub open spec fn elements_text(es: Seq<ElementView>, answers: Answers) -> Result<
    Seq<char>,
    MathConvertError,
>
    decreases es.len(),
{
    if es.len() == 0 {
        Ok(Seq::empty())
    } else {
        match elements_text(es.drop_last(), answers) {
            Err(e) => Err(e),
            Ok(t) => match element_text(es.last(), answers) {
                Err(e) => Err(e),
                Ok(u) => Ok(t + u),
            },
        }
    }
}

/// The pictures that the elements bring, in order.
pub open spec fn elements_pictures(es: Seq<ElementView>, answers: Answers) -> Seq<PictureView>
    decreases es.len(),
{
    if es.len() == 0 {
        Seq::empty()
    } else {
        elements_pictures(es.drop_last(), answers) + element_pictures(es.last(), answers)
    }
}

/// Appends a code span, as text, to `out`.
pub fn push_code(out: &mut Vec<char>, code: &Code)
    ensures
        final(out)@ == old(out)@ + code_text(code@),
{
    if code.multiline {
        out.push('`');
        out.push('`');
        out.push('`');
        push_text(out, code.text.as_str());
        out.push('`');
        out.push('`');
        out.push('`');
        assert(out@ =~= old(out)@ + code_text(code@));
    } else {
        out.push('`');
        push_text(out, code.text.as_str());
        out.push('`');
        assert(out@ =~= old(out)@ + code_text(code@));
    }
}

/// A code span as text.
pub fn code_to_string(code: &Code) -> (r: String)
    ensures
        r@ == code_text(code@),
{
    let mut out: Vec<char> = Vec::new();
    push_code(&mut out, code);
    assert(out@ =~= code_text(code@));
    let r = string_of(out.as_slice(), 0, out.len());
    assert(out@.subrange(0, out@.len() as int) =~= out@);
    r
}

/// A math span in the form in which it is probed and converted as Typst.
pub fn typst_form(math: &Math) -> (r: String)
    ensures
        r@ == typst_source(math@),
{
    let mut r = String::new();
    if math.display {
        r.push('$');
        r.push(' ');
        r.append(math.text.as_str());
        r.push(' ');
        r.push('$');
    } else {
        r.push('$');
        r.append(math.text.as_str());
        r.push('$');
    }
    assert(r@ =~= typst_source(math@));
    r
}

fn latex_form(math: &Math) -> (r: Vec<char>)
    ensures
        r@ == latex_source(math@),
{
    let mut r: Vec<char> = Vec::new();
    r.push('\\');
    if math.display {
        r.push('[');
    } else {
        r.push('(');
    }
    push_text(&mut r, math.text.as_str());
    r.push('\\');
    if math.display {
        r.push(']');
    } else {
        r.push(')');
    }
    assert(r@ =~= latex_source(math@));
    r
}

/// Appends a math span, as the text of a flashcard, to `out`; on an error
/// `out` stays as it is.
pub fn push_math(out: &mut Vec<char>, math: &Math, answers: &Answers) -> (r: Result<
    (),
    MathConvertError,
>)
    ensures
        match r {
            Ok(_) => math_text(math@, *answers) is Ok && final(out)@ == old(out)@ + math_text(
                math@,
                *answers,
            )->Ok_0,
            Err(e) => math_text(math@, *answers) == Err::<Seq<char>, MathConvertError>(e)
                && final(out)@ == old(out)@,
        },
{
    let key = typst_form(math);
    match answers.find_math(&key) {
        Some(i) => {
            match &answers.math[i].1 {
                MathAnswer::Failed(e) => Err(e.duplicate()),
                MathAnswer::Typst(output) => {
                    let mut chars = chars_of(output.as_str());
                    if chars.len() > 0 {
                        chars.pop();
                    }
                    assert(chars@ =~= without_last(output@));
                    push_braces_parted(out, chars.as_slice());
                    Ok(())
                },
                MathAnswer::Latex => {
                    let latex = latex_form(math);
                    push_braces_parted(out, latex.as_slice());
                    Ok(())
                },
            }
        },
        None => {
            let latex = latex_form(math);
            push_braces_parted(out, latex.as_slice());
            Ok(())
        },
    }
}

/// A math span as the text of a flashcard.
pub fn convert_math(math: &Math, answers: &Answers) -> (r: Result<String, MathConvertError>)
    ensures
        match r {
            Ok(s) => math_text(math@, *answers) == Ok::<Seq<char>, MathConvertError>(s@),
            Err(e) => math_text(math@, *answers) == Err::<Seq<char>, MathConvertError>(e),
        },
{
    let mut out: Vec<char> = Vec::new();
    match push_math(&mut out, math, answers) {
        Err(e) => Err(e),
        Ok(_) => {
            let r = string_of(out.as_slice(), 0, out.len());
            assert(out@.subrange(0, out@.len() as int) =~= out@);
            assert(out@ =~= math_text(math@, *answers)->Ok_0);
            Ok(r)
        },
    }
}

fn find_extension_dot(t: &[char]) -> (r: Option<usize>)
    ensures
        match r {
            Some(d) => extension_dot(t@) == Some(d as int) && d < t@.len(),
            None => extension_dot(t@) is None,
        },
{
    if t.len() == 0 {
        return None;
    }
    let mut p: usize = t.len() - 1;
    loop
        invariant
            p < t@.len(),
            extension_dot(t@) == extension_dot_from(t@, p as int),
        decreases p,
    {
        if t[p] == '/' {
            return None;
        }
        if t[p] == '.' {
            if p >= 1 && t[p - 1] != '/' {
                return Some(p);
            } else {
                return None;
            }
        }
        if p == 0 {
            assert(extension_dot_from(t@, -1) is None);
            return None;
        }
        p -= 1;
    }
}

fn image_extension(e: &[char]) -> (r: bool)
    ensures
        r == is_image_extension(e@),
{
    same_text(e, chars_of("jpg").as_slice()) || same_text(e, chars_of("jpeg").as_slice())
        || same_text(e, chars_of("jxl").as_slice()) || same_text(e, chars_of("png").as_slice())
        || same_text(e, chars_of("gif").as_slice()) || same_text(e, chars_of("bmp").as_slice())
        || same_text(e, chars_of("svg").as_slice()) || same_text(e, chars_of("webp").as_slice())
        || same_text(e, chars_of("apng").as_slice()) || same_text(e, chars_of("ico").as_slice())
        || same_text(e, chars_of("tif").as_slice()) || same_text(e, chars_of("tiff").as_slice())
        || same_text(e, chars_of("avif").as_slice())
}

/// What kind of image a path names, by its extension.
#[derive(Clone, Copy, Debug, PartialEq, Eq)]
pub enum ImageKind {
    /// Not an image.
    NoImage,
    /// An image that the store can show as it is.
    Plain,
    /// An image that has to be encoded anew.
    Reencode,
}

/// What kind of image the path `target` names.
pub fn image_kind(target: &str) -> (r: ImageKind)
    ensures
        (r == ImageKind::NoImage) == !is_image_path(target@),
        (r == ImageKind::Reencode) == (is_image_path(target@) && needs_reencoding(target@)),
{
    let t = chars_of(target);
    match find_extension_dot(t.as_slice()) {
        None => ImageKind::NoImage,
        Some(d) => {
            let n = t.len();
            let e = t.as_slice();
            let ext = string_of(e, d + 1, n);
            let ext_chars = chars_of(ext.as_str());
            if !image_extension(ext_chars.as_slice()) {
                ImageKind::NoImage
            } else if same_text(ext_chars.as_slice(), chars_of("jxl").as_slice()) {
                ImageKind::Reencode
            } else {
                ImageKind::Plain
            }
        },
    }
}

fn stored_name(target: &str) -> (r: String)
    ensures
        r@ == stored_filename(target@),
{
    let t = chars_of(target);
    match find_extension_dot(t.as_slice()) {
        None => String::from_str(target),
        Some(d) => {
            let n = t.len();
            let ext = string_of(t.as_slice(), d + 1, n);
            if same_text(chars_of(ext.as_str()).as_slice(), chars_of("jxl").as_slice()) {
                let mut r = string_of(t.as_slice(), 0, d + 1);
                r.append("jpg");
                r
            } else {
                String::from_str(target)
            }
        },
    }
}

/// Takes note of the image that `target` names, if it names one that is on
/// disk: its picture is appended to `pictures`. Says whether it was.
pub fn maybe_handle_image(target: &str, pictures: &mut Vec<Picture>, answers: &Answers) -> (r:
    bool)
    ensures
        r == (is_image_path(target@) && answers.image_path(target@) is Some),
        r ==> pictures_view(final(pictures)@) == pictures_view(old(pictures)@).push(
            PictureView {
                path: answers.image_path(target@)->Some_0@,
                filename: stored_filename(target@),
                fields: back_extra(),
            },
        ),
        !r ==> *final(pictures) == *old(pictures),
{
    match image_kind(target) {
        ImageKind::NoImage => false,
        _ => {
            let key = String::from_str(target);
            match answers.find_image(&key) {
                None => false,
                Some(i) => {
                    match &answers.images[i].1 {
                        Some(path) => {
                            let picture = Picture::new(path.clone(), stored_name(target));
                            proof {
                                assert(pictures_view(pictures@.push(picture)) =~= pictures_view(
                                    pictures@,
                                ).push(picture@));
                            }
                            pictures.push(picture);
                            true
                        },
                        None => false,
                    }
                },
            }
        },
    }
}

/// Appends a link, as text, to `out`, and the picture that it brings, if
/// any, to `pictures`.
pub fn push_link(
    out: &mut Vec<char>,
    link: &Link,
    pictures: &mut Vec<Picture>,
    answers: &Answers,
)
    ensures
        final(out)@ == old(out)@ + link_text(link@, *answers),
        pictures_view(final(pictures)@) == pictures_view(old(pictures)@) + element_pictures(
            ElementView::Link(link@),
            *answers,
        ),
{
    if link.embed && maybe_handle_image(link.target.as_str(), pictures, answers) {
        assert(out@ + link_text(link@, *answers) =~= out@);
        assert(pictures_view(old(pictures)@) + element_pictures(
            ElementView::Link(link@),
            *answers,
        ) =~= pictures_view(old(pictures)@).push(link_picture(link@, *answers)->Some_0));
    } else {
        assert(pictures_view(old(pictures)@) + element_pictures(
            ElementView::Link(link@),
            *answers,
        ) =~= pictures_view(old(pictures)@));
        match &link.rename {
            Some(r) => push_text(out, r.as_str()),
            None => push_text(out, link.target.as_str()),
        }
    }
}

/// A link as text; the picture that it brings, if any, is appended to
/// `pictures`.
pub fn link_to_string(link: &Link, pictures: &mut Vec<Picture>, answers: &Answers) -> (r: String)
    ensures
        r@ == link_text(link@, *answers),
        pictures_view(final(pictures)@) == pictures_view(old(pictures)@) + element_pictures(
            ElementView::Link(link@),
            *answers,
        ),
{
    let mut out: Vec<char> = Vec::new();
    push_link(&mut out, link, pictures, answers);
    let r = string_of(out.as_slice(), 0, out.len());
    assert(out@.subrange(0, out@.len() as int) =~= out@);
    assert(out@ =~= link_text(link@, *answers));
    r
}

/// Appends an element, as text, to `out`, and the picture that it brings, if
/// any, to `pictures`. On an error both stay as they are.
pub fn push_element(
    out: &mut Vec<char>,
    element: &Element,
    pictures: &mut Vec<Picture>,
    answers: &Answers,
) -> (r: Result<(), MathConvertError>)
    ensures
        match r {
            Ok(_) => element_text(element@, *answers) is Ok && final(out)@ == old(out)@
                + element_text(element@, *answers)->Ok_0 && pictures_view(final(pictures)@)
                == pictures_view(old(pictures)@) + element_pictures(element@, *answers),
            Err(e) => element_text(element@, *answers) == Err::<Seq<char>, MathConvertError>(e)
                && final(out)@ == old(out)@ && *final(pictures) == *old(pictures),
        },
{
    match element {
        Element::Code(c) => {
            push_code(out, c);
            assert(pictures_view(pictures@) + Seq::<PictureView>::empty() =~= pictures_view(
                pictures@,
            ));
            Ok(())
        },
        Element::Math(m) => {
            assert(pictures_view(pictures@) + Seq::<PictureView>::empty() =~= pictures_view(
                pictures@,
            ));
            push_math(out, m, answers)
        },
        Element::Link(l) => {
            push_link(out, l, pictures, answers);
            Ok(())
        },
        Element::Char(c) => {
            out.push(*c);
            assert(out@ =~= old(out)@ + seq![*c]);
            assert(pictures_view(pictures@) + Seq::<PictureView>::empty() =~= pictures_view(
                pictures@,
            ));
            Ok(())
        },
    }
}

/// An element as text; the picture that it brings, if any, is appended to
/// `pictures`.
pub fn element_to_string(element: &Element, pictures: &mut Vec<Picture>, answers: &Answers) -> (r:
    Result<String, MathConvertError>)
    ensures
        match r {
            Ok(s) => element_text(element@, *answers) == Ok::<Seq<char>, MathConvertError>(s@)
                && pictures_view(final(pictures)@) == pictures_view(old(pictures)@)
                + element_pictures(element@, *answers),
            Err(e) => element_text(element@, *answers) == Err::<Seq<char>, MathConvertError>(e)
                && *final(pictures) == *old(pictures),
        },
{
    let mut out: Vec<char> = Vec::new();
    match push_element(&mut out, element, pictures, answers) {
        Err(e) => Err(e),
        Ok(_) => {
            let r = string_of(out.as_slice(), 0, out.len());
            assert(out@.subrange(0, out@.len() as int) =~= out@);
            assert(out@ =~= element_text(element@, *answers)->Ok_0);
            Ok(r)
        },
    }
}

/// The elements as text, appended to `out`, and the pictures that they
/// bring, appended to `pictures`. On an error the two hold what they held.
pub fn push_elements(
    out: &mut Vec<char>,
    elements: &Vec<Element>,
    pictures: &mut Vec<Picture>,
    answers: &Answers,
) -> (r: Result<(), MathConvertError>)
    ensures
        match r {
            Ok(_) => elements_text(elements_view(elements@), *answers) is Ok && final(out)@
                == old(out)@ + elements_text(elements_view(elements@), *answers)->Ok_0
                && pictures_view(final(pictures)@) == pictures_view(old(pictures)@)
                + elements_pictures(elements_view(elements@), *answers),
            Err(e) => elements_text(elements_view(elements@), *answers) == Err::<
                Seq<char>,
                MathConvertError,
            >(e) && final(out)@ == old(out)@ && pictures_view(final(pictures)@)
                == pictures_view(old(pictures)@),
        },
{
    let ghost es = elements_view(elements@);
    let text_start = out.len();
    let pictures_start = pictures.len();
    let mut i: usize = 0;
    proof {
        assert(es.take(0) =~= Seq::<ElementView>::empty());
        assert(out@ + Seq::<char>::empty() =~= out@);
        assert(pictures_view(pictures@) + Seq::<PictureView>::empty() =~= pictures_view(
            pictures@,
        ));
    }
    while i < elements.len()
        invariant
            i <= elements@.len(),
            es == elements_view(elements@),
            text_start == old(out)@.len(),
            pictures_start == old(pictures)@.len(),
            elements_text(es.take(i as int), *answers) is Ok,
            out@ == old(out)@ + elements_text(es.take(i as int), *answers)->Ok_0,
            pictures_view(pictures@) == pictures_view(old(pictures)@) + elements_pictures(
                es.take(i as int),
                *answers,
            ),
        decreases elements@.len() - i,
    {
        proof {
            assert(es.take(i + 1).drop_last() =~= es.take(i as int));
            assert(es.take(i + 1).last() == elements@[i as int]@);
        }
        match push_element(out, &elements[i], pictures, answers) {
            Err(e) => {
                proof {
                    lemma_elements_text_fails(es, i + 1, *answers);
                }
                let ghost views = pictures_view(pictures@);
                out.truncate(text_start);
                pictures.truncate(pictures_start);
                assert(out@ =~= old(out)@);
                assert(pictures_view(pictures@) =~= views.subrange(0, pictures_start as int));
                assert(views.subrange(0, pictures_start as int) =~= pictures_view(
                    old(pictures)@,
                ));
                return Err(e);
            },
            Ok(_) => {
                proof {
                    let t = elements_text(es.take(i as int), *answers)->Ok_0;
                    let u = element_text(es[i as int], *answers)->Ok_0;
                    assert(old(out)@ + (t + u) =~= (old(out)@ + t) + u);
                    let p = elements_pictures(es.take(i as int), *answers);
                    let q = element_pictures(es[i as int], *answers);
                    assert(pictures_view(old(pictures)@) + (p + q) =~= (pictures_view(
                        old(pictures)@,
                    ) + p) + q);
                }
            },
        }
        i += 1;
    }
    assert(es.take(i as int) =~= es);
    Ok(())
}

/// Where the text of the first `k` elements is an error, so is the text of
/// all of them: the same error.
pub proof fn lemma_elements_text_fails(es: Seq<ElementView>, k: int, answers: Answers)
    requires
        0 <= k <= es.len(),
        elements_text(es.take(k), answers) is Err,
    ensures
        elements_text(es, answers) == elements_text(es.take(k), answers),
    decreases es.len() - k,
{
    if k < es.len() {
        assert(es.take(k + 1).drop_last() =~= es.take(k));
        lemma_elements_text_fails(es, k + 1, answers);
    } else {
        assert(es.take(k) =~= es);
    }
}

/// The views of two lists of pictures, one after the other, are the view of
/// the lists joined.
pub proof fn lemma_pictures_view_append(a: Seq<Picture>, b: Seq<Picture>)
    ensures
        pictures_view(a + b) == pictures_view(a) + pictures_view(b),
{
    assert(pictures_view(a + b) =~= pictures_view(a) + pictures_view(b));
}

} // verus!
